//! The decisions of the player worker: what it does with each command and
//! each event of the streaming player, and what its periodic tick reports.
//! The worker's loop performs the effects and feeds back the events.

use vstd::prelude::*;

verus! {

/// How long after a play request a missing start of playback is reported.
pub const PLAY_STALL_WARN_AFTER_MS: u64 = 5000;

/// The heartbeat is logged every this many ticks.
pub const HEARTBEAT_EVERY_TICKS: u64 = 150;

/// What the streaming library made of a track's URI.
#[derive(Debug, Clone, Copy, PartialEq, Eq, Structural)]
pub enum UriCheck {
    /// Not a URI the library understands.
    Invalid,
    /// A URI of something that cannot be played.
    NotPlayable,
    Playable,
}

/// Commands to the worker, with what the streaming library made of the
/// track's URI where there is one.
pub enum WorkerCommand {
    Load { uri: String, check: UriCheck, start_playing: bool, position_ms: u32 },
    Play,
    Pause,
    Stop,
    Seek(u32),
    SetVolume(u16),
    Preload { check: UriCheck },
    Shutdown,
}

/// Events of the streaming player.
#[derive(Debug, Clone, Copy, PartialEq, Eq, Structural)]
pub enum LibraryEvent {
    Playing { position_ms: u32 },
    Paused { position_ms: u32 },
    Stopped,
    EndOfTrack,
    TimeToPreloadNextTrack,
    Seeked { position_ms: u32 },
    /// Any other event: logged, nothing else.
    Other,
}

/// Player events the worker reports to the application; a start is the
/// moment (in milliseconds since the epoch) from which playback would have
/// reached its position.
#[derive(Debug, Clone, Copy, PartialEq, Eq, Structural)]
pub enum PlayerEvent {
    Playing(u64),
    Paused(u32),
    Stopped,
    FinishedTrack,
}

/// What the worker does.
#[derive(Debug, Clone, Copy, PartialEq, Eq, Structural)]
pub enum WorkerEffect {
    Load { start_playing: bool, position_ms: u32 },
    Play,
    Pause,
    Stop,
    Seek(u32),
    SetVolume(u16),
    Preload,
    ShutdownSession,
    /// Report a player event to the application.
    Report(PlayerEvent),
    /// Ask the queue for the track to preload.
    RequestPreload,
}

/// Whether the player plays, is paused or stopped.
#[derive(Debug, Clone, Copy, PartialEq, Eq, Structural)]
pub enum WorkerStatus {
    Playing,
    Paused,
    Stopped,
}

/// A play request that has not started playing yet.
pub struct PendingPlay {
    pub since_ms: u64,
    pub uri: String,
    pub warned: bool,
}

/// What a tick of the worker reports.
#[derive(Debug, Clone, Copy, PartialEq, Eq, Structural)]
pub enum TickReport {
    /// Nothing beyond the refresh.
    Quiet,
    /// Playback has not started long after a play request.
    Stalled,
}

/// What a tick does: whether the views are refreshed (not while stopped),
/// what it reports, and whether the heartbeat is logged.
#[derive(Debug, Clone, Copy, PartialEq, Eq, Structural)]
pub struct Tick {
    pub refresh: bool,
    pub report: TickReport,
    pub heartbeat: bool,
}

/// The worker's memory: the player's status, the pending play request and
/// the ticks counted for the heartbeat.
pub struct Worker {
    status: WorkerStatus,
    pending: Option<PendingPlay>,
    heartbeat_ticks: u64,
}

/// The value of a pending play request.
pub open spec fn pending_view(p: Option<PendingPlay>) -> Option<(u64, Seq<char>, bool)> {
    match p {
        Some(q) => Some((q.since_ms, q.uri@, q.warned)),
        None => None,
    }
}

/// What the worker reports for an event of the streaming player at
/// `now_ms`, the player's status being `status`: playing reports its start,
/// pausing its position, stopping and the end of a track themselves; the
/// time to preload asks the queue; a seek is reported in the light of the
/// status; other events report nothing.
pub open spec fn event_report(status: WorkerStatus, event: LibraryEvent, now_ms: u64) -> Option<WorkerEffect> {
    match event {
        LibraryEvent::Playing { position_ms } => Some(WorkerEffect::Report(PlayerEvent::Playing((now_ms - position_ms) as u64))),
        LibraryEvent::Paused { position_ms } => Some(WorkerEffect::Report(PlayerEvent::Paused(position_ms))),
        LibraryEvent::Stopped => Some(WorkerEffect::Report(PlayerEvent::Stopped)),
        LibraryEvent::EndOfTrack => Some(WorkerEffect::Report(PlayerEvent::FinishedTrack)),
        LibraryEvent::TimeToPreloadNextTrack => Some(WorkerEffect::RequestPreload),
        LibraryEvent::Seeked { position_ms } => Some(
            WorkerEffect::Report(
                match status {
                    WorkerStatus::Playing => PlayerEvent::Playing((now_ms - position_ms) as u64),
                    WorkerStatus::Paused => PlayerEvent::Paused(position_ms),
                    WorkerStatus::Stopped => PlayerEvent::Stopped,
                },
            ),
        ),
        LibraryEvent::Other => None,
    }
}

/// The player's status after an event.
pub open spec fn event_status(status: WorkerStatus, event: LibraryEvent) -> WorkerStatus {
    match event {
        LibraryEvent::Playing { .. } => WorkerStatus::Playing,
        LibraryEvent::Paused { .. } => WorkerStatus::Paused,
        LibraryEvent::Stopped => WorkerStatus::Stopped,
        _ => status,
    }
}

/// The pending play request after an event: playing, pausing, stopping and
/// the end of a track settle it.
pub open spec fn event_pending(p: Option<(u64, Seq<char>, bool)>, event: LibraryEvent) -> Option<(u64, Seq<char>, bool)> {
    match event {
        LibraryEvent::Playing { .. } | LibraryEvent::Paused { .. } | LibraryEvent::Stopped | LibraryEvent::EndOfTrack => None,
        _ => p,
    }
}

/// What a tick at `now_ms` makes of the pending play request: a request
/// still pending five seconds (or more) after it was made and not yet
/// reported is reported and marked; a clock that went back counts as no time
/// passed.
pub open spec fn stall_tick(p: Option<(u64, Seq<char>, bool)>, now_ms: u64) -> (TickReport, Option<(u64, Seq<char>, bool)>) {
    match p {
        Some((since, uri, warned)) => if !warned && now_ms >= since && now_ms - since >= PLAY_STALL_WARN_AFTER_MS {
            (TickReport::Stalled, Some((since, uri, true)))
        } else {
            (TickReport::Quiet, p)
        },
        None => (TickReport::Quiet, None),
    }
}

/// A stalled play request is reported once: the ticks after the one that
/// reported it report nothing, whenever they come.
pub proof fn lemma_stall_reported_once(p: Option<(u64, Seq<char>, bool)>, now_ms: u64, later_ms: u64)
    requires
        stall_tick(p, now_ms).0 == TickReport::Stalled,
    ensures
        stall_tick(stall_tick(p, now_ms).1, later_ms).0 == TickReport::Quiet,
        stall_tick(stall_tick(p, now_ms).1, later_ms).1 == stall_tick(p, now_ms).1,
{
}

impl Worker {
    pub closed spec fn status(&self) -> WorkerStatus {
        self.status
    }

    /// The pending play request: when it was made, its URI, whether its
    /// stall was reported.
    pub closed spec fn pending(&self) -> Option<(u64, Seq<char>, bool)> {
        pending_view(self.pending)
    }

    pub closed spec fn heartbeat_ticks(&self) -> u64 {
        self.heartbeat_ticks
    }

    /// A stopped player, nothing pending, no ticks counted.
    pub fn new() -> (r: Self)
        ensures
            r.status() == WorkerStatus::Stopped,
            r.pending() is None,
            r.heartbeat_ticks() == 0,
    {
        Worker { status: WorkerStatus::Stopped, pending: None, heartbeat_ticks: 0 }
    }

    /// A command at `now_ms`. A load of a track the library cannot play
    /// reports the track finished; one that starts playing is remembered
    /// until playback starts. Pausing, stopping and shutting down forget it.
    pub fn on_command(&mut self, cmd: WorkerCommand, now_ms: u64) -> (r: Vec<WorkerEffect>)
        ensures
            final(self).status() == old(self).status(),
            final(self).heartbeat_ticks() == old(self).heartbeat_ticks(),
            match cmd {
                WorkerCommand::Load { uri, check, start_playing, position_ms } => if check == UriCheck::Playable {
                    &&& r@ == seq![WorkerEffect::Load { start_playing, position_ms }]
                    &&& final(self).pending() == (if start_playing {
                        Some((now_ms, uri@, false))
                    } else {
                        None
                    })
                } else {
                    r@ == seq![WorkerEffect::Report(PlayerEvent::FinishedTrack)] && final(self).pending() is None
                },
                WorkerCommand::Play => r@ == seq![WorkerEffect::Play] && final(self).pending() == old(self).pending(),
                WorkerCommand::Pause => r@ == seq![WorkerEffect::Pause] && final(self).pending() is None,
                WorkerCommand::Stop => r@ == seq![WorkerEffect::Stop] && final(self).pending() is None,
                WorkerCommand::Seek(p) => r@ == seq![WorkerEffect::Seek(p)] && final(self).pending() == old(self).pending(),
                WorkerCommand::SetVolume(v) => r@ == seq![WorkerEffect::SetVolume(v)] && final(self).pending()
                    == old(self).pending(),
                WorkerCommand::Preload { check } => final(self).pending() == old(self).pending() && r@ == (if check
                    == UriCheck::Invalid {
                    Seq::<WorkerEffect>::empty()
                } else {
                    seq![WorkerEffect::Preload]
                }),
                WorkerCommand::Shutdown => r@ == seq![WorkerEffect::Stop, WorkerEffect::ShutdownSession]
                    && final(self).pending() is None,
            },
    {
        let mut out: Vec<WorkerEffect> = Vec::new();
        match cmd {
            WorkerCommand::Load { uri, check, start_playing, position_ms } => {
                match check {
                    UriCheck::Playable => {
                        out.push(WorkerEffect::Load { start_playing, position_ms });
                        self.pending = if start_playing {
                            Some(PendingPlay { since_ms: now_ms, uri, warned: false })
                        } else {
                            None
                        };
                    },
                    _ => {
                        out.push(WorkerEffect::Report(PlayerEvent::FinishedTrack));
                        self.pending = None;
                    },
                }
            },
            WorkerCommand::Play => out.push(WorkerEffect::Play),
            WorkerCommand::Pause => {
                out.push(WorkerEffect::Pause);
                self.pending = None;
            },
            WorkerCommand::Stop => {
                out.push(WorkerEffect::Stop);
                self.pending = None;
            },
            WorkerCommand::Seek(p) => out.push(WorkerEffect::Seek(p)),
            WorkerCommand::SetVolume(v) => out.push(WorkerEffect::SetVolume(v)),
            WorkerCommand::Preload { check } => {
                match check {
                    UriCheck::Invalid => {},
                    _ => out.push(WorkerEffect::Preload),
                }
            },
            WorkerCommand::Shutdown => {
                out.push(WorkerEffect::Stop);
                out.push(WorkerEffect::ShutdownSession);
                self.pending = None;
            },
        }
        out
    }

    /// An event of the streaming player at `now_ms`: what is reported to the
    /// application. Playing, pausing, stopping and the end of a track settle
    /// the pending request; a seek is reported in the light of the status.
    pub fn on_library_event(&mut self, event: LibraryEvent, now_ms: u64) -> (r: Option<WorkerEffect>)
        requires
            event matches LibraryEvent::Playing { position_ms } ==> position_ms <= now_ms,
            event matches LibraryEvent::Seeked { position_ms } ==> position_ms <= now_ms,
        ensures
            final(self).heartbeat_ticks() == old(self).heartbeat_ticks(),
            r == event_report(old(self).status(), event, now_ms),
            final(self).status() == event_status(old(self).status(), event),
            final(self).pending() == event_pending(old(self).pending(), event),
    {
        match event {
            LibraryEvent::Playing { position_ms } => {
                self.status = WorkerStatus::Playing;
                self.pending = None;
                Some(WorkerEffect::Report(PlayerEvent::Playing(now_ms - position_ms as u64)))
            },
            LibraryEvent::Paused { position_ms } => {
                self.status = WorkerStatus::Paused;
                self.pending = None;
                Some(WorkerEffect::Report(PlayerEvent::Paused(position_ms)))
            },
            LibraryEvent::Stopped => {
                self.status = WorkerStatus::Stopped;
                self.pending = None;
                Some(WorkerEffect::Report(PlayerEvent::Stopped))
            },
            LibraryEvent::EndOfTrack => {
                self.pending = None;
                Some(WorkerEffect::Report(PlayerEvent::FinishedTrack))
            },
            LibraryEvent::TimeToPreloadNextTrack => Some(WorkerEffect::RequestPreload),
            LibraryEvent::Seeked { position_ms } => {
                let e = match self.status {
                    WorkerStatus::Playing => PlayerEvent::Playing(now_ms - position_ms as u64),
                    WorkerStatus::Paused => PlayerEvent::Paused(position_ms),
                    WorkerStatus::Stopped => PlayerEvent::Stopped,
                };
                Some(WorkerEffect::Report(e))
            },
            LibraryEvent::Other => None,
        }
    }

    /// A refresh tick at `now_ms`: the views are refreshed unless stopped; a
    /// play request still pending five seconds (or more) after it was made is
    /// reported once; every 150th tick logs a heartbeat. A clock that went
    /// back counts as no time passed.
    pub fn on_tick(&mut self, now_ms: u64) -> (r: Tick)
        ensures
            r.refresh == (old(self).status() != WorkerStatus::Stopped),
            final(self).status() == old(self).status(),
            final(self).heartbeat_ticks() == (if old(self).heartbeat_ticks() == u64::MAX {
                0
            } else {
                old(self).heartbeat_ticks() + 1
            }),
            r.heartbeat == (final(self).heartbeat_ticks() % HEARTBEAT_EVERY_TICKS == 0),
            (r.report, final(self).pending()) == stall_tick(old(self).pending(), now_ms),
    {
        let refresh = match self.status {
            WorkerStatus::Stopped => false,
            _ => true,
        };
        let mut report = TickReport::Quiet;
        match &mut self.pending {
            Some(p) => {
                let elapsed: u64 = if now_ms >= p.since_ms {
                    now_ms - p.since_ms
                } else {
                    0
                };
                if !p.warned && elapsed >= PLAY_STALL_WARN_AFTER_MS {
                    p.warned = true;
                    report = TickReport::Stalled;
                }
            },
            None => {},
        }
        self.heartbeat_ticks = self.heartbeat_ticks.wrapping_add(1);
        let heartbeat = self.heartbeat_ticks % HEARTBEAT_EVERY_TICKS == 0;
        Tick { refresh, report, heartbeat }
    }
}


/// Whether the worker's loop goes on.
#[derive(Debug, Clone, Copy, PartialEq, Eq, Structural)]
pub enum WorkerFlow {
    Continue,
    Stop,
}

/// The check at the top of each round of the loop: an invalid session ends
/// the worker, after reporting that playback stopped.
pub fn check_session(session_invalid: bool) -> (r: (WorkerFlow, Option<WorkerEffect>))
    ensures
        r == (if session_invalid {
            (WorkerFlow::Stop, Some(WorkerEffect::Report(PlayerEvent::Stopped)))
        } else {
            (WorkerFlow::Continue, None)
        }),
{
    if session_invalid {
        (WorkerFlow::Stop, Some(WorkerEffect::Report(PlayerEvent::Stopped)))
    } else {
        (WorkerFlow::Continue, None)
    }
}

impl Worker {
    /// A message from the player's event channel at `now_ms`: a closed
    /// channel (`None`) ends the worker; an event is handled as
    /// `on_library_event` says.
    pub fn on_library_message(&mut self, msg: Option<LibraryEvent>, now_ms: u64) -> (r: (WorkerFlow, Option<WorkerEffect>))
        requires
            msg matches Some(LibraryEvent::Playing { position_ms }) ==> position_ms <= now_ms,
            msg matches Some(LibraryEvent::Seeked { position_ms }) ==> position_ms <= now_ms,
        ensures
            match msg {
                None => r == (WorkerFlow::Stop, None::<WorkerEffect>) && *final(self) == *old(self),
                Some(e) => {
                    &&& r == (WorkerFlow::Continue, event_report(old(self).status(), e, now_ms))
                    &&& final(self).status() == event_status(old(self).status(), e)
                    &&& final(self).pending() == event_pending(old(self).pending(), e)
                    &&& final(self).heartbeat_ticks() == old(self).heartbeat_ticks()
                },
            },
    {
        match msg {
            None => (WorkerFlow::Stop, None),
            Some(e) => (WorkerFlow::Continue, self.on_library_event(e, now_ms)),
        }
    }
}

} // verus!
