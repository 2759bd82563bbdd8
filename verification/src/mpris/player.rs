//! The answers and decisions of the MPRIS player interface
//! (`org.mpris.MediaPlayer2.Player`) that depend on the queue and the
//! playback position only.

use vstd::prelude::*;
use crate::queue::{PlayerStatus, Queue, RepeatSetting, QueueEffect};
use crate::text::str_eq;

verus! {

/// The MPRIS name of a playback state.
pub open spec fn playback_status_name(s: PlayerStatus) -> Seq<char> {
    match s {
        PlayerStatus::Playing | PlayerStatus::FinishedTrack => "Playing"@,
        PlayerStatus::Paused => "Paused"@,
        PlayerStatus::Stopped => "Stopped"@,
    }
}

/// The MPRIS `PlaybackStatus` of the player.
pub fn playback_status(status: PlayerStatus) -> (r: &'static str)
    ensures
        r@ == playback_status_name(status),
{
    match status {
        PlayerStatus::Playing | PlayerStatus::FinishedTrack => "Playing",
        PlayerStatus::Paused => "Paused",
        PlayerStatus::Stopped => "Stopped",
    }
}

/// The MPRIS name of a repeat setting.
pub open spec fn loop_status_name(r: RepeatSetting) -> Seq<char> {
    match r {
        RepeatSetting::Off => "None"@,
        RepeatSetting::RepeatTrack => "Track"@,
        RepeatSetting::RepeatPlaylist => "Playlist"@,
    }
}

/// The repeat setting an MPRIS `LoopStatus` asks for: anything but `Track`
/// and `Playlist` turns repetition off.
pub open spec fn loop_status_setting(s: Seq<char>) -> RepeatSetting {
    if s == "Track"@ {
        RepeatSetting::RepeatTrack
    } else if s == "Playlist"@ {
        RepeatSetting::RepeatPlaylist
    } else {
        RepeatSetting::Off
    }
}

/// The MPRIS `LoopStatus` of the queue.
pub fn loop_status(repeat: RepeatSetting) -> (r: &'static str)
    ensures
        r@ == loop_status_name(repeat),
{
    match repeat {
        RepeatSetting::Off => "None",
        RepeatSetting::RepeatTrack => "Track",
        RepeatSetting::RepeatPlaylist => "Playlist",
    }
}

/// The repeat setting that an MPRIS `LoopStatus` value sets.
pub fn parse_loop_status(s: &str) -> (r: RepeatSetting)
    ensures
        r == loop_status_setting(s@),
{
    if str_eq(s, "Track") {
        RepeatSetting::RepeatTrack
    } else if str_eq(s, "Playlist") {
        RepeatSetting::RepeatPlaylist
    } else {
        RepeatSetting::Off
    }
}

/// Reading back the MPRIS name of a repeat setting gives that setting.
pub proof fn lemma_loop_status_round_trip(r: RepeatSetting)
    ensures
        loop_status_setting(loop_status_name(r)) == r,
{
    reveal_strlit("None");
    reveal_strlit("Track");
    reveal_strlit("Playlist");
    assert("None"@.len() != "Track"@.len());
    assert("Playlist"@.len() != "Track"@.len());
    assert("None"@.len() != "Playlist"@.len());
}

/// Whether the player can go to a next entry: there is one, or the queue
/// repeats and is not empty.
pub fn can_go_next<T>(queue: &Queue<T>) -> (r: bool)
    requires
        queue.wf(),
    ensures
        r == (queue.next_index_spec() is Some || (queue.repeat() == RepeatSetting::RepeatPlaylist
            && queue.items().len() > 0)),
{
    queue.next_index().is_some() || (queue.get_repeat() == RepeatSetting::RepeatPlaylist && queue.len() > 0)
}

/// Whether the player can go to a previous entry: there is one, or the
/// queue repeats and is not empty.
pub fn can_go_previous<T>(queue: &Queue<T>) -> (r: bool)
    requires
        queue.wf(),
    ensures
        r == (queue.previous_index_spec() is Some || (queue.repeat() == RepeatSetting::RepeatPlaylist
            && queue.items().len() > 0)),
{
    queue.previous_index().is_some() || (queue.get_repeat() == RepeatSetting::RepeatPlaylist && queue.len()
        > 0)
}

/// Whether the player can play, pause or seek: an entry is playing.
pub fn can_play<T>(queue: &Queue<T>) -> (r: bool)
    requires
        queue.wf(),
    ensures
        r == queue.current() is Some,
{
    queue.get_current_index().is_some()
}

/// What "previous" does at a playback position.
#[derive(Debug, Clone, Copy, PartialEq, Eq, Structural)]
pub enum PreviousAction {
    /// Go to the previous entry.
    PreviousEntry,
    /// Start the playing entry again.
    Restart,
}

/// "Previous" goes to the previous entry during the first five seconds, and
/// otherwise starts the playing entry again.
pub fn previous_action(progress_ms: u64) -> (r: PreviousAction)
    ensures
        r == (if progress_ms < 5000 {
            PreviousAction::PreviousEntry
        } else {
            PreviousAction::Restart
        }),
{
    if progress_ms < 5000 {
        PreviousAction::PreviousEntry
    } else {
        PreviousAction::Restart
    }
}

/// What a relative seek does.
#[derive(Debug, Clone, Copy, PartialEq, Eq, Structural)]
pub enum SeekAction {
    /// Seek to this position, in milliseconds.
    SeekTo(u32),
    /// The position is past the end: go to the next entry.
    Next,
}

/// `a / 1000` rounded toward zero, as integer division in Rust rounds.
pub open spec fn millis_of_micros(a: i64) -> int {
    if a >= 0 {
        a / 1000
    } else {
        -((-a) / 1000)
    }
}

/// The target of a relative seek of `offset_us` microseconds from a position
/// of `secs` seconds and `millis` milliseconds, counted in milliseconds in an
/// `i32` (the seconds truncated to it) and at least zero.
pub open spec fn seek_target(secs: u64, millis: u32, offset_us: i64) -> int {
    let p = ((secs * 1000) as i32) + (millis as i32) + (millis_of_micros(offset_us) as i32);
    if p < 0 {
        0
    } else {
        p
    }
}

/// A relative seek of `offset_us` microseconds in an entry of `duration_ms`
/// milliseconds, at a position of `secs` seconds and `millis` milliseconds:
/// to the target when it is before the end, else on to the next entry.
pub fn seek_action(secs: u64, millis: u32, offset_us: i64, duration_ms: u32) -> (r: SeekAction)
    requires
        millis < 1000,
        secs * 1000 <= u64::MAX,
        i32::MIN <= ((secs * 1000) as i32) + (millis as i32) + (millis_of_micros(offset_us) as i32) <= i32::MAX,
        i32::MIN <= ((secs * 1000) as i32) + (millis as i32) <= i32::MAX,
    ensures
        r == (if seek_target(secs, millis, offset_us) < duration_ms {
            SeekAction::SeekTo(seek_target(secs, millis, offset_us) as u32)
        } else {
            SeekAction::Next
        }),
{
    let base: i32 = (secs * 1000) as i32;
    let with_millis: i32 = base + millis as i32;
    let quotient: i64 = offset_us / 1000;
    assert(quotient == millis_of_micros(offset_us));
    let p: i32 = with_millis + quotient as i32;
    let target: u32 = if p < 0 {
        0
    } else {
        p as u32
    };
    if target < duration_ms {
        SeekAction::SeekTo(target)
    } else {
        SeekAction::Next
    }
}

/// Where setting the position to `position_us` microseconds seeks in an
/// entry of `duration_ms` milliseconds: the position in milliseconds (as a
/// `u32`, truncated), when it is before the end.
pub fn set_position_target(position_us: i64, duration_ms: u32) -> (r: Option<u32>)
    ensures
        r == (if (millis_of_micros(position_us) as u32) < duration_ms {
            Some(millis_of_micros(position_us) as u32)
        } else {
            None
        }),
{
    let quotient: i64 = position_us / 1000;
    assert(quotient == millis_of_micros(position_us));
    let position = quotient as u32;
    if position < duration_ms {
        Some(position)
    } else {
        None
    }
}

/// Replaces the queue with copies of `tracks` and plays them from the first
/// one, or from a random one when shuffle is on (drawing a new shuffle
/// order); returns the index playing was asked for, 0.
pub fn play_collection<T: Clone>(queue: &mut Queue<T>, tracks: &[T]) -> (r: usize)
    requires
        old(queue).wf(),
        old(queue).counter() + tracks@.len() <= u64::MAX,
        tracks@.len() <= usize::MAX,
    ensures
        r == 0,
        final(queue).wf(),
        final(queue).items().len() == tracks@.len(),
        forall|j: int| 0 <= j < tracks@.len() ==> cloned(tracks@[j], #[trigger] final(queue).items()[j]),
        final(queue).shuffled() == old(queue).shuffled(),
        final(queue).repeat() == old(queue).repeat(),
        final(queue).ids() == Seq::new(tracks@.len(), |j: int| (old(queue).counter() + j) as u64),
        final(queue).counter() == old(queue).counter() + tracks@.len(),
        old(queue).shuffled() ==> final(queue).fresh_order(),
        !old(queue).shuffled() ==> final(queue).order() == (match old(queue).order() {
            Some(o) => Some(Seq::new(tracks@.len(), |j: int| j as usize)),
            None => None,
        }),
        ({
            let replaced = old(queue).effects().push(QueueEffect::Stop).push(QueueEffect::TrackListReplaced).push(
                QueueEffect::TrackListReplaced,
            );
            if tracks@.len() == 0 {
                final(queue).current() is None && final(queue).effects() == replaced
            } else if !old(queue).shuffled() {
                final(queue).current() == Some(0usize) && final(queue).effects() == replaced.push(
                    QueueEffect::Load(0),
                )
            } else {
                exists|i: usize|
                    i < tracks@.len() && final(queue).current() == Some(i) && final(queue).effects()
                        == replaced.push(QueueEffect::Load(i))
            }
        }),
{
    let should_shuffle = queue.get_shuffle();
    queue.clear();
    let index = queue.append_next(tracks);
    let ghost mid = queue.items();
    assert forall|j: int| 0 <= j < tracks@.len() implies cloned(tracks@[j], #[trigger] mid[j]) by {
        assert(mid[index + j] == mid[j]);
    }
    proof {
        assert(queue.ids() =~= Seq::new(tracks@.len(), |j: int| (old(queue).counter() + j) as u64));
        if let Some(o) = queue.order() {
            assert(o =~= Seq::new(tracks@.len(), |j: int| j as usize));
        }
    }
    queue.play(index, should_shuffle, should_shuffle);
    index
}


/// Opening a single track or episode: the queue is cleared, the entry
/// appended and played.
pub fn play_single<T>(queue: &mut Queue<T>, track: T)
    requires
        old(queue).wf(),
        old(queue).counter() < u64::MAX,
    ensures
        final(queue).wf(),
        final(queue).items() == seq![track],
        final(queue).ids() == seq![old(queue).counter()],
        final(queue).current() == Some(0usize),
        final(queue).shuffled() == old(queue).shuffled(),
        final(queue).repeat() == old(queue).repeat(),
        final(queue).order() == (match old(queue).order() {
            Some(o) => Some(seq![0usize]),
            None => None,
        }),
        final(queue).effects() == old(queue).effects().push(QueueEffect::Stop).push(QueueEffect::TrackListReplaced).push(
            QueueEffect::TrackAdded { id: old(queue).counter(), after_id: None },
        ).push(QueueEffect::Load(0)),
{
    queue.clear();
    queue.append(track);
    queue.play(0, false, false);
    assert(queue.items() =~= seq![track]);
    assert(queue.ids() =~= seq![old(queue).counter()]);
}

} // verus!
