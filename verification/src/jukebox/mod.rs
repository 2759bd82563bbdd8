//! The jukebox: an endless remix of a track that jumps between beats that
//! sound alike. Here: its switches, the decisions of its driver loop, and the
//! integer parts of its beat graph and driver.

pub mod analysis;
pub mod driver;
pub mod graph;
pub mod render;
pub mod settings;
pub mod view_mode;

pub use self::view_mode::ViewMode;

use vstd::prelude::*;
use crate::jukebox::driver::Branch;
use crate::text::str_eq;

verus! {

/// The switches of the jukebox that the views and commands change and its
/// driver loop reads.
pub struct Jukebox {
    enabled: bool,
    bouncing: bool,
    rebuild: bool,
    view_mode: ViewMode,
    seek_request: Option<usize>,
}

/// The value of the jukebox's switches.
pub struct Switches {
    pub enabled: bool,
    pub bouncing: bool,
    pub rebuild: bool,
    pub view_mode: ViewMode,
    pub seek_request: Option<usize>,
}

impl Jukebox {
    pub closed spec fn view(&self) -> Switches {
        Switches {
            enabled: self.enabled,
            bouncing: self.bouncing,
            rebuild: self.rebuild,
            view_mode: self.view_mode,
            seek_request: self.seek_request,
        }
    }

    /// A jukebox, on or off, in the linear view, not bouncing.
    pub fn new(enabled: bool) -> (r: Self)
        ensures
            r.view() == (Switches {
                enabled,
                bouncing: false,
                rebuild: false,
                view_mode: ViewMode::Linear,
                seek_request: None,
            }),
    {
        Jukebox { enabled, bouncing: false, rebuild: false, view_mode: ViewMode::Linear, seek_request: None }
    }

    pub fn is_enabled(&self) -> (r: bool)
        ensures
            r == self.view().enabled,
    {
        self.enabled
    }

    pub fn set_enabled(&mut self, on: bool)
        ensures
            final(self).view() == (Switches { enabled: on, ..old(self).view() }),
    {
        self.enabled = on;
    }

    /// Turns the jukebox on or off, and says which.
    pub fn toggle(&mut self) -> (r: bool)
        ensures
            r == !old(self).view().enabled,
            final(self).view() == (Switches { enabled: r, ..old(self).view() }),
    {
        let new = !self.enabled;
        self.enabled = new;
        new
    }

    /// Turns bouncing on or off.
    pub fn toggle_bounce(&mut self)
        ensures
            final(self).view() == (Switches { bouncing: !old(self).view().bouncing, ..old(self).view() }),
    {
        self.bouncing = !self.bouncing;
    }

    pub fn is_bouncing(&self) -> (r: bool)
        ensures
            r == self.view().bouncing,
    {
        self.bouncing
    }

    /// Asks the driver to seek to a beat.
    pub fn request_seek_to_beat(&mut self, beat: usize)
        ensures
            final(self).view() == (Switches { seek_request: Some(beat), ..old(self).view() }),
    {
        self.seek_request = Some(beat);
    }

    /// Hands out the pending seek request, leaving none.
    pub fn take_seek_request(&mut self) -> (r: Option<usize>)
        ensures
            r == old(self).view().seek_request,
            final(self).view() == (Switches { seek_request: None, ..old(self).view() }),
    {
        let r = self.seek_request;
        self.seek_request = None;
        r
    }

    pub fn view_mode(&self) -> (r: ViewMode)
        ensures
            r == self.view().view_mode,
    {
        self.view_mode
    }

    /// Moves on to the next view mode, and says which.
    pub fn cycle_view_mode(&mut self) -> (r: ViewMode)
        ensures
            r == crate::jukebox::view_mode::next_mode(old(self).view().view_mode),
            final(self).view() == (Switches { view_mode: r, ..old(self).view() }),
    {
        let m = self.view_mode.next();
        self.view_mode = m;
        m
    }

    /// New settings were applied: the driver has to be rebuilt.
    pub fn apply_settings(&mut self)
        ensures
            final(self).view() == (Switches { rebuild: true, ..old(self).view() }),
    {
        self.rebuild = true;
    }

    /// Whether the driver has to be rebuilt; clears the request.
    pub fn take_rebuild(&mut self) -> (r: bool)
        ensures
            r == old(self).view().rebuild,
            final(self).view() == (Switches { rebuild: false, ..old(self).view() }),
    {
        let r = self.rebuild;
        self.rebuild = false;
        r
    }
}

/// The seed that follows `seed`: a step of the 64-bit linear congruential
/// generator with multiplier 6364136223846793005 and increment
/// 1442695040888963407.
pub open spec fn next_seed_spec(seed: u64) -> u64 {
    ((seed as nat * 6364136223846793005nat + 1442695040888963407nat) % 0x1_0000_0000_0000_0000nat) as u64
}

/// The seed that follows `seed`.
pub fn next_seed(seed: u64) -> (r: u64)
    ensures
        r == next_seed_spec(seed),
{
    let x = seed.wrapping_mul(6364136223846793005);
    let r = x.wrapping_add(1442695040888963407);
    proof {
        let m: int = 0x1_0000_0000_0000_0000;
        let a: int = seed as int * 6364136223846793005int;
        let c: int = 1442695040888963407int;
        assert(x == a % m);
        vstd::arithmetic::div_mod::lemma_add_mod_noop(a, c, m);
        vstd::arithmetic::div_mod::lemma_small_mod(c as nat, m as nat);
        vstd::arithmetic::div_mod::lemma_mod_bound(a, m);
        if x + c >= m {
            vstd::arithmetic::div_mod::lemma_mod_sub_multiples_vanish(x + c, m);
            vstd::arithmetic::div_mod::lemma_small_mod((x + c - m) as nat, m as nat);
        } else {
            vstd::arithmetic::div_mod::lemma_small_mod((x + c) as nat, m as nat);
        }
    }
    r
}

/// What the driver loop does when a track plays.
#[derive(Debug, Clone, Copy, PartialEq, Eq, Structural)]
pub enum TrackStep {
    /// The same track as before: go on with the current driver, if any.
    Same,
    /// A new track without an id: there is no analysis to drive by.
    NoAnalysis,
    /// A new track: build a driver for it with this seed.
    Build(u64),
}

/// The driver loop's memory between ticks: the track driven, whether a
/// driver runs, the seed of the last driver, and how many ticks to let pass
/// after a seek before following playback again.
pub struct DriverTicker {
    current_track: Option<String>,
    driving: bool,
    seed: u64,
    seek_cooldown: u32,
}

/// The value of the driver loop's memory.
pub struct TickerView {
    pub current_track: Option<Seq<char>>,
    pub driving: bool,
    pub seed: u64,
    pub seek_cooldown: u32,
}

impl DriverTicker {
    pub closed spec fn view(&self) -> TickerView {
        TickerView {
            current_track: self.current_track.deep_view(),
            driving: self.driving,
            seed: self.seed,
            seek_cooldown: self.seek_cooldown,
        }
    }

    /// No track, no driver, the initial seed `0x9E3779B97F4A7C15`.
    pub fn new() -> (r: Self)
        ensures
            r.view() == (TickerView {
                current_track: None,
                driving: false,
                seed: 0x9E37_79B9_7F4A_7C15,
                seek_cooldown: 0,
            }),
    {
        DriverTicker { current_track: None, driving: false, seed: 0x9E37_79B9_7F4A_7C15, seek_cooldown: 0 }
    }

    /// A tick while the jukebox is off: the driver and the track are dropped.
    /// Says whether a driver was running (then its state has to be cleared).
    pub fn on_disabled(&mut self) -> (r: bool)
        ensures
            r == old(self).view().driving,
            final(self).view() == (if old(self).view().driving {
                TickerView { current_track: None, driving: false, ..old(self).view() }
            } else {
                old(self).view()
            }),
    {
        if self.driving {
            self.driving = false;
            self.current_track = None;
            true
        } else {
            false
        }
    }

    /// A tick while the track `track_id` plays. A new track drops the driver;
    /// with an id it takes the next seed and asks for a driver to be built.
    pub fn on_track(&mut self, track_id: Option<&str>) -> (r: TrackStep)
        ensures
            ({
                let id = match track_id {
                    Some(t) => Some(t@),
                    None => None::<Seq<char>>,
                };
                if id == old(self).view().current_track {
                    r == TrackStep::Same && final(self).view() == old(self).view()
                } else if id is None {
                    r == TrackStep::NoAnalysis && final(self).view() == (TickerView {
                        current_track: None,
                        driving: false,
                        ..old(self).view()
                    })
                } else {
                    r == TrackStep::Build(next_seed_spec(old(self).view().seed)) && final(self).view() == (
                    TickerView {
                        current_track: id,
                        driving: false,
                        seed: next_seed_spec(old(self).view().seed),
                        ..old(self).view()
                    })
                }
            }),
    {
        let same = match (&self.current_track, track_id) {
            (Some(a), Some(b)) => str_eq(a.as_str(), b),
            (None, None) => true,
            _ => false,
        };
        if same {
            return TrackStep::Same;
        }
        self.driving = false;
        match track_id {
            None => {
                self.current_track = None;
                TrackStep::NoAnalysis
            },
            Some(t) => {
                self.current_track = Some(String::from_str(t));
                self.seed = next_seed(self.seed);
                TrackStep::Build(self.seed)
            },
        }
    }

    /// Records whether a driver now runs.
    pub fn set_driving(&mut self, driving: bool)
        ensures
            final(self).view() == (TickerView { driving, ..old(self).view() }),
    {
        self.driving = driving;
    }

    /// The seed for rebuilding the driver of the current track after a
    /// change of settings.
    pub fn rebuild_seed(&self) -> (r: u64)
        ensures
            r == self.view().seed | 2,
    {
        self.seed | 2
    }

    /// A seek was made: playback is not followed for the next ticks (three
    /// after a requested seek, two after a jump).
    pub fn after_seek(&mut self, requested: bool)
        ensures
            final(self).view() == (TickerView { seek_cooldown: if requested { 3u32 } else { 2u32 }, ..old(self).view() }),
    {
        self.seek_cooldown = if requested {
            3
        } else {
            2
        };
    }

    /// Whether playback is followed on this tick; otherwise one tick of the
    /// cool-down passes.
    pub fn should_follow(&mut self) -> (r: bool)
        ensures
            r == (old(self).view().seek_cooldown == 0),
            final(self).view() == (if r {
                old(self).view()
            } else {
                TickerView { seek_cooldown: (old(self).view().seek_cooldown - 1) as u32, ..old(self).view() }
            }),
    {
        if self.seek_cooldown > 0 {
            self.seek_cooldown = self.seek_cooldown - 1;
            false
        } else {
            true
        }
    }
}

/// What the rendering of the jukebox page depends on; the picture is redrawn
/// only when it changes.
#[derive(Debug, Clone, Copy, PartialEq, Eq)]
pub struct RenderKey {
    pub mode: ViewMode,
    pub graphics: bool,
    pub current_beat: usize,
    pub last_branch: Option<(usize, usize)>,
    pub total_beats: usize,
    pub region: (usize, usize),
    pub enabled: bool,
    pub show_web: bool,
    pub max: usize,
}

/// The render key of a jukebox page.
pub fn render_key(
    mode: ViewMode,
    graphics: bool,
    current_beat: usize,
    last_branch: Option<Branch>,
    total_beats: usize,
    region: (usize, usize),
    enabled: bool,
    show_web: bool,
    max: usize,
) -> (r: RenderKey)
    ensures
        r == (RenderKey {
            mode,
            graphics,
            current_beat,
            last_branch: match last_branch {
                Some(b) => Some((b.source, b.destination)),
                None => None,
            },
            total_beats,
            region,
            enabled,
            show_web,
            max,
        }),
{
    RenderKey {
        mode,
        graphics,
        current_beat,
        last_branch: match last_branch {
            Some(b) => Some((b.source, b.destination)),
            None => None,
        },
        total_beats,
        region,
        enabled,
        show_web,
        max,
    }
}

} // verus!
