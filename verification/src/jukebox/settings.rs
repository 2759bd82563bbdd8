//! Anti-loop settings of the jukebox: what counts as the same loop, how loops
//! are counted, and what happens when a loop has been taken too often.
//! Configuration names are read case-insensitively; an unknown name falls
//! back to the default.

use vstd::prelude::*;
use crate::text::{ascii_lower, lower_eq};

verus! {

/// `s` in ASCII lower case.
pub open spec fn lower(s: Seq<char>) -> Seq<char> {
    s.map_values(|c: char| ascii_lower(c))
}

/// What makes two branches the same loop.
#[derive(Debug, Clone, Copy, PartialEq, Eq, Structural)]
pub enum LoopIdentity {
    Edge,
    Destination,
    Distance,
}

pub open spec fn loop_identity_of(s: Seq<char>) -> LoopIdentity {
    if lower(s) == "destination"@ {
        LoopIdentity::Destination
    } else if lower(s) == "distance"@ {
        LoopIdentity::Distance
    } else {
        LoopIdentity::Edge
    }
}

pub open spec fn loop_identity_name(v: LoopIdentity) -> Seq<char> {
    match v {
        LoopIdentity::Edge => "edge"@,
        LoopIdentity::Destination => "destination"@,
        LoopIdentity::Distance => "distance"@,
    }
}

impl LoopIdentity {
    pub fn parse(s: &str) -> (r: Self)
        ensures
            r == loop_identity_of(s@),
    {
        if lower_eq(s, "destination") {
            LoopIdentity::Destination
        } else if lower_eq(s, "distance") {
            LoopIdentity::Distance
        } else {
            LoopIdentity::Edge
        }
    }

    pub fn as_str(self) -> (r: &'static str)
        ensures
            r@ == loop_identity_name(self),
    {
        match self {
            LoopIdentity::Edge => "edge",
            LoopIdentity::Destination => "destination",
            LoopIdentity::Distance => "distance",
        }
    }
}

/// Whether loops are counted in a row or over the whole song.
#[derive(Debug, Clone, Copy, PartialEq, Eq, Structural)]
pub enum LoopCountMode {
    Consecutive,
    Cumulative,
}

pub open spec fn loop_count_mode_of(s: Seq<char>) -> LoopCountMode {
    if lower(s) == "cumulative"@ {
        LoopCountMode::Cumulative
    } else {
        LoopCountMode::Consecutive
    }
}

pub open spec fn loop_count_mode_name(v: LoopCountMode) -> Seq<char> {
    match v {
        LoopCountMode::Consecutive => "consecutive"@,
        LoopCountMode::Cumulative => "cumulative"@,
    }
}

impl LoopCountMode {
    pub fn parse(s: &str) -> (r: Self)
        ensures
            r == loop_count_mode_of(s@),
    {
        if lower_eq(s, "cumulative") {
            LoopCountMode::Cumulative
        } else {
            LoopCountMode::Consecutive
        }
    }

    pub fn as_str(self) -> (r: &'static str)
        ensures
            r@ == loop_count_mode_name(self),
    {
        match self {
            LoopCountMode::Consecutive => "consecutive",
            LoopCountMode::Cumulative => "cumulative",
        }
    }
}

/// What to do instead of a branch that has looped too often.
#[derive(Debug, Clone, Copy, PartialEq, Eq, Structural)]
pub enum LoopSkipAction {
    DifferentElseContinue,
    Continue,
    DifferentOnly,
}

pub open spec fn loop_skip_action_of(s: Seq<char>) -> LoopSkipAction {
    if lower(s) == "continue"@ {
        LoopSkipAction::Continue
    } else if lower(s) == "different_only"@ {
        LoopSkipAction::DifferentOnly
    } else {
        LoopSkipAction::DifferentElseContinue
    }
}

pub open spec fn loop_skip_action_name(v: LoopSkipAction) -> Seq<char> {
    match v {
        LoopSkipAction::DifferentElseContinue => "different_else_continue"@,
        LoopSkipAction::Continue => "continue"@,
        LoopSkipAction::DifferentOnly => "different_only"@,
    }
}

impl LoopSkipAction {
    pub fn parse(s: &str) -> (r: Self)
        ensures
            r == loop_skip_action_of(s@),
    {
        if lower_eq(s, "continue") {
            LoopSkipAction::Continue
        } else if lower_eq(s, "different_only") {
            LoopSkipAction::DifferentOnly
        } else {
            LoopSkipAction::DifferentElseContinue
        }
    }

    pub fn as_str(self) -> (r: &'static str)
        ensures
            r@ == loop_skip_action_name(self),
    {
        match self {
            LoopSkipAction::DifferentElseContinue => "different_else_continue",
            LoopSkipAction::Continue => "continue",
            LoopSkipAction::DifferentOnly => "different_only",
        }
    }
}

/// What happens to a loop's count once it has been skipped.
#[derive(Debug, Clone, Copy, PartialEq, Eq, Structural)]
pub enum LoopCounter {
    Reset,
    Retire,
}

pub open spec fn loop_counter_of(s: Seq<char>) -> LoopCounter {
    if lower(s) == "retire"@ {
        LoopCounter::Retire
    } else {
        LoopCounter::Reset
    }
}

pub open spec fn loop_counter_name(v: LoopCounter) -> Seq<char> {
    match v {
        LoopCounter::Reset => "reset"@,
        LoopCounter::Retire => "retire"@,
    }
}

impl LoopCounter {
    pub fn parse(s: &str) -> (r: Self)
        ensures
            r == loop_counter_of(s@),
    {
        if lower_eq(s, "retire") {
            LoopCounter::Retire
        } else {
            LoopCounter::Reset
        }
    }

    pub fn as_str(self) -> (r: &'static str)
        ensures
            r@ == loop_counter_name(self),
    {
        match self {
            LoopCounter::Reset => "reset",
            LoopCounter::Retire => "retire",
        }
    }
}

/// A name that is already lower case reads back as itself.
pub proof fn lemma_names_round_trip(
    identity: LoopIdentity,
    count_mode: LoopCountMode,
    skip_action: LoopSkipAction,
    counter: LoopCounter,
)
    ensures
        loop_identity_of(loop_identity_name(identity)) == identity,
        loop_count_mode_of(loop_count_mode_name(count_mode)) == count_mode,
        loop_skip_action_of(loop_skip_action_name(skip_action)) == skip_action,
        loop_counter_of(loop_counter_name(counter)) == counter,
{
    reveal_strlit("edge");
    reveal_strlit("destination");
    reveal_strlit("distance");
    reveal_strlit("consecutive");
    reveal_strlit("cumulative");
    reveal_strlit("different_else_continue");
    reveal_strlit("continue");
    reveal_strlit("different_only");
    reveal_strlit("reset");
    reveal_strlit("retire");
    assert(lower("edge"@) =~= "edge"@);
    assert(lower("destination"@) =~= "destination"@);
    assert(lower("distance"@) =~= "distance"@);
    assert(lower("consecutive"@) =~= "consecutive"@);
    assert(lower("cumulative"@) =~= "cumulative"@);
    assert(lower("different_else_continue"@) =~= "different_else_continue"@);
    assert(lower("continue"@) =~= "continue"@);
    assert(lower("different_only"@) =~= "different_only"@);
    assert(lower("reset"@) =~= "reset"@);
    assert(lower("retire"@) =~= "retire"@);
    assert("edge"@ != "destination"@);
    assert("edge"@ != "distance"@);
    assert("distance"@[1] != "destination"@[1]);
    assert("consecutive"@ != "cumulative"@);
    assert("different_else_continue"@ != "continue"@);
    assert("different_else_continue"@ != "different_only"@);
    assert("different_only"@ != "continue"@);
    assert("reset"@[2] != "retire"@[2]);
}

/// The anti-loop part of the jukebox configuration, as read from the
/// configuration file: each field absent when not set.
#[derive(Debug, Clone, Default)]
pub struct JukeboxConfig {
    pub break_loops: Option<bool>,
    pub loop_threshold: Option<usize>,
    pub loop_identity: Option<String>,
    pub loop_count_mode: Option<String>,
    pub loop_skip_action: Option<String>,
    pub break_last_branch: Option<bool>,
    pub loop_counter: Option<String>,
}

/// How the jukebox keeps itself from looping: off by default.
#[derive(Debug, Clone, Copy, PartialEq, Eq, Structural)]
pub struct AntiLoopSettings {
    pub enabled: bool,
    pub threshold: usize,
    pub identity: LoopIdentity,
    pub count_mode: LoopCountMode,
    pub skip_action: LoopSkipAction,
    pub break_last_branch: bool,
    pub counter: LoopCounter,
}

/// The anti-loop settings when nothing is configured.
pub open spec fn default_anti_loop() -> AntiLoopSettings {
    AntiLoopSettings {
        enabled: false,
        threshold: 4,
        identity: LoopIdentity::Edge,
        count_mode: LoopCountMode::Consecutive,
        skip_action: LoopSkipAction::DifferentElseContinue,
        break_last_branch: false,
        counter: LoopCounter::Reset,
    }
}

impl Default for AntiLoopSettings {
    fn default() -> (r: Self)
        ensures
            r == default_anti_loop(),
    {
        AntiLoopSettings {
            enabled: false,
            threshold: 4,
            identity: LoopIdentity::Edge,
            count_mode: LoopCountMode::Consecutive,
            skip_action: LoopSkipAction::DifferentElseContinue,
            break_last_branch: false,
            counter: LoopCounter::Reset,
        }
    }
}

/// The configured value, or the default.
pub open spec fn or_default<T>(o: Option<T>, d: T) -> T {
    match o {
        Some(v) => v,
        None => d,
    }
}

/// The anti-loop settings that a configuration gives: each field as
/// configured, else its default; the threshold at least 1.
pub open spec fn anti_loop_of(c: JukeboxConfig) -> AntiLoopSettings {
    let d = default_anti_loop();
    let threshold = or_default(c.loop_threshold, d.threshold);
    AntiLoopSettings {
        enabled: or_default(c.break_loops, d.enabled),
        threshold: if threshold < 1 {
            1
        } else {
            threshold
        },
        identity: match c.loop_identity {
            Some(s) => loop_identity_of(s@),
            None => d.identity,
        },
        count_mode: match c.loop_count_mode {
            Some(s) => loop_count_mode_of(s@),
            None => d.count_mode,
        },
        skip_action: match c.loop_skip_action {
            Some(s) => loop_skip_action_of(s@),
            None => d.skip_action,
        },
        break_last_branch: or_default(c.break_last_branch, d.break_last_branch),
        counter: match c.loop_counter {
            Some(s) => loop_counter_of(s@),
            None => d.counter,
        },
    }
}

impl AntiLoopSettings {
    pub fn from_config(c: &JukeboxConfig) -> (r: Self)
        ensures
            r == anti_loop_of(*c),
    {
        let d = AntiLoopSettings::default();
        let threshold = match c.loop_threshold {
            Some(t) => t,
            None => d.threshold,
        };
        AntiLoopSettings {
            enabled: match c.break_loops {
                Some(b) => b,
                None => d.enabled,
            },
            threshold: if threshold < 1 {
                1
            } else {
                threshold
            },
            identity: match &c.loop_identity {
                Some(s) => LoopIdentity::parse(s.as_str()),
                None => d.identity,
            },
            count_mode: match &c.loop_count_mode {
                Some(s) => LoopCountMode::parse(s.as_str()),
                None => d.count_mode,
            },
            skip_action: match &c.loop_skip_action {
                Some(s) => LoopSkipAction::parse(s.as_str()),
                None => d.skip_action,
            },
            break_last_branch: match c.break_last_branch {
                Some(b) => b,
                None => d.break_last_branch,
            },
            counter: match &c.loop_counter {
                Some(s) => LoopCounter::parse(s.as_str()),
                None => d.counter,
            },
        }
    }
}

/// Which precedence tier produced the effective settings for the current track.
#[derive(Debug, Clone, Copy, PartialEq, Eq, Structural)]
pub enum SettingsSource {
    Global,
    PerSong,
}

/// A single tunable dial, for marking which are overridden for one song.
#[derive(Debug, Clone, Copy, PartialEq, Eq, Structural)]
pub enum Dial {
    MaxBranchDistance,
    DynamicThreshold,
    MinBranchProbability,
    MaxBranchProbability,
    BranchProbabilityRamp,
    OnlyBackwardBranches,
    OnlyLongBranches,
    RemoveSequentialBranches,
    AddLastBranch,
    AlwaysFollowLastBranch,
    MaxPlayTimeSecs,
    AntiLoop,
}

} // verus!
