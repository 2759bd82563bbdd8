use vstd::prelude::*;

verus! {

/// How the jukebox page lays out the beat graph.
#[derive(Debug, Clone, Copy, PartialEq, Eq, Structural)]
pub enum ViewMode {
    Linear,
    Radial,
    Split,
}

/// The mode that follows `m` in the cycle Linear -> Radial -> Split -> Linear.
pub open spec fn next_mode(m: ViewMode) -> ViewMode {
    match m {
        ViewMode::Linear => ViewMode::Radial,
        ViewMode::Radial => ViewMode::Split,
        ViewMode::Split => ViewMode::Linear,
    }
}

impl ViewMode {
    pub fn next(self) -> (r: Self)
        ensures
            r == next_mode(self),
    {
        match self {
            Self::Linear => Self::Radial,
            Self::Radial => Self::Split,
            Self::Split => Self::Linear,
        }
    }
}

/// Cycling three times through the view modes returns to the starting mode.
pub proof fn lemma_view_mode_cycle(m: ViewMode)
    ensures
        next_mode(next_mode(next_mode(m))) == m,
        next_mode(m) != m,
{
}

} // verus!
