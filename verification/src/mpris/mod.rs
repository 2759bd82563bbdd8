//! The MPRIS (D-Bus media player) side: the commands its worker takes, the
//! object paths that name queue entries and playlists, and the constant
//! answers of the root interface.

pub mod metadata;
pub mod player;
pub mod playlists;
pub mod root;
pub mod tracklist;

use vstd::prelude::*;
use crate::mpris::playlists::{library_view, playlist_entry, playlist_path_for_id};
use crate::mpris::tracklist::{added_after, current_track_path, current_track_path_spec, no_track_spec, tracks};
use crate::queue::Queue;
use crate::text::{decimal_digits, decimal_string};

verus! {

/// Commands to the MPRIS worker.
#[derive(Debug)]
pub enum MprisCommand {
    EmitPlaybackStatus,
    EmitVolumeStatus,
    EmitMetadataStatus,
    EmitSeekedStatus(i64),
    /// Emit a LoopStatus PropertiesChanged signal.
    EmitLoopStatus,
    /// Emit a Shuffle PropertiesChanged signal.
    EmitShuffleStatus,
    /// The whole track list changed (clear, bulk add, reorder, activate playlist).
    EmitTrackListReplaced,
    /// A single entry with this stable id was added.
    EmitTrackAdded(u64),
    /// The entry with this stable id was removed.
    EmitTrackRemoved(u64),
    /// The metadata of the entry with this stable id changed.
    EmitTrackMetadataChanged(u64),
    /// The library's playlist set changed.
    EmitPlaylistChanged,
}

/// The object path prefix of queue entries.
pub open spec fn queue_prefix() -> Seq<char> {
    "/org/ncspot/queue/"@
}

/// The object path of the queue entry with stable id `id`.
pub open spec fn track_path_spec(id: u64) -> Seq<char> {
    queue_prefix() + decimal_digits(id as nat)
}

/// The object path of the queue entry with stable id `id`.
pub fn track_path_for_id(id: u64) -> (r: String)
    ensures
        r@ == track_path_spec(id),
{
    let mut r = String::from_str("/org/ncspot/queue/");
    let digits = decimal_string(id);
    r.append(digits.as_str());
    r
}

/// The object path MPRIS uses for "no track".
pub fn no_track_path() -> (r: &'static str)
    ensures
        r@ == "/org/mpris/MediaPlayer2/TrackList/NoTrack"@,
{
    "/org/mpris/MediaPlayer2/TrackList/NoTrack"
}

/// The D-Bus bus name of this player instance, as the MPRIS bus name policy
/// asks: `org.mpris.MediaPlayer2.ncspot.instance` and the process id.
pub fn instance_bus_name(pid: u32) -> (r: String)
    ensures
        r@ == "org.mpris.MediaPlayer2.ncspot.instance"@ + decimal_digits(pid as nat),
{
    let mut r = String::from_str("org.mpris.MediaPlayer2.ncspot.instance");
    let digits = decimal_string(pid as u64);
    r.append(digits.as_str());
    r
}


/// What the MPRIS server emits for a command.
pub enum MprisSignal {
    PlaybackStatus,
    Volume,
    Metadata,
    Seeked(i64),
    LoopStatus,
    Shuffle,
    /// The whole list: the entries' paths and the current entry's path.
    TrackListReplaced { tracks: Vec<String>, current: String },
    /// The entry at `index` (path `track`) was added after the entry `after`;
    /// its metadata goes with the signal.
    TrackAdded { index: usize, track: String, after: String },
    TrackRemoved { track: String },
    /// The metadata of the entry at `index` (path `track`) changed.
    TrackMetadataChanged { index: usize, track: String },
    /// The first library playlist, as an MPRIS playlist entry.
    PlaylistChanged { playlist: (String, String, String) },
    /// Nothing to emit: the entry or playlist is gone.
    Nothing,
}

/// The signal the MPRIS server emits for `cmd`, over the queue and the
/// library's playlists `(id, name)`.
pub fn signal_for<T>(cmd: MprisCommand, queue: &Queue<T>, playlists: &[(String, String)]) -> (r: MprisSignal)
    requires
        queue.wf(),
    ensures
        match cmd {
            MprisCommand::EmitPlaybackStatus => r is PlaybackStatus,
            MprisCommand::EmitVolumeStatus => r is Volume,
            MprisCommand::EmitMetadataStatus => r is Metadata,
            MprisCommand::EmitSeekedStatus(p) => r == MprisSignal::Seeked(p),
            MprisCommand::EmitLoopStatus => r is LoopStatus,
            MprisCommand::EmitShuffleStatus => r is Shuffle,
            MprisCommand::EmitTrackListReplaced => r matches MprisSignal::TrackListReplaced { tracks, current }
                && tracks@.map_values(|t: String| t@) == queue.ids().map_values(|id: u64| track_path_spec(id))
                && current@ == current_track_path_spec(*queue),
            MprisCommand::EmitTrackAdded(id) => if queue.ids().contains(id) {
                r matches MprisSignal::TrackAdded { index, track, after } && index < queue.ids().len()
                    && queue.ids()[index as int] == id && track@ == track_path_spec(id) && after@ == (if index == 0 {
                    no_track_spec()
                } else {
                    track_path_spec(queue.ids()[index - 1])
                })
            } else {
                r is Nothing
            },
            MprisCommand::EmitTrackRemoved(id) => r matches MprisSignal::TrackRemoved { track } && track@
                == track_path_spec(id),
            MprisCommand::EmitTrackMetadataChanged(id) => if queue.ids().contains(id) {
                r matches MprisSignal::TrackMetadataChanged { index, track } && index < queue.ids().len()
                    && queue.ids()[index as int] == id && track@ == track_path_spec(id)
            } else {
                r is Nothing
            },
            MprisCommand::EmitPlaylistChanged => if playlists@.len() > 0 {
                r matches MprisSignal::PlaylistChanged { playlist } && (playlist.0@, playlist.1@, playlist.2@)
                    == playlist_entry(library_view(playlists@[0]))
            } else {
                r is Nothing
            },
        },
{
    match cmd {
        MprisCommand::EmitPlaybackStatus => MprisSignal::PlaybackStatus,
        MprisCommand::EmitVolumeStatus => MprisSignal::Volume,
        MprisCommand::EmitMetadataStatus => MprisSignal::Metadata,
        MprisCommand::EmitSeekedStatus(p) => MprisSignal::Seeked(p),
        MprisCommand::EmitLoopStatus => MprisSignal::LoopStatus,
        MprisCommand::EmitShuffleStatus => MprisSignal::Shuffle,
        MprisCommand::EmitTrackListReplaced => MprisSignal::TrackListReplaced {
            tracks: tracks(queue),
            current: current_track_path(queue),
        },
        MprisCommand::EmitTrackAdded(id) => match added_after(queue, id) {
            Some((index, after)) => MprisSignal::TrackAdded { index, track: track_path_for_id(id), after },
            None => MprisSignal::Nothing,
        },
        MprisCommand::EmitTrackRemoved(id) => MprisSignal::TrackRemoved { track: track_path_for_id(id) },
        MprisCommand::EmitTrackMetadataChanged(id) => match queue.index_for_id(id) {
            Some(index) => MprisSignal::TrackMetadataChanged { index, track: track_path_for_id(id) },
            None => MprisSignal::Nothing,
        },
        MprisCommand::EmitPlaylistChanged => {
            if playlists.len() > 0 {
                let (id, name) = &playlists[0];
                MprisSignal::PlaylistChanged {
                    playlist: (playlist_path_for_id(id.as_str()), name.clone(), String::new()),
                }
            } else {
                MprisSignal::Nothing
            }
        },
    }
}

} // verus!
