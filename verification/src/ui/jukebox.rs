//! The jukebox page: which picture it draws, where beats and branch
//! brackets go on a line, which branches make up the web, the selected
//! beat, what keys and commands do, and the statistics line.

use vstd::prelude::*;
use crate::jukebox::driver::Branch;
use crate::jukebox::{Jukebox, ViewMode};
use crate::text::{decimal_digits, decimal_string, push_char, str_eq};

verus! {

/// `a - b`, or zero when `b` is larger.
pub open spec fn sat_sub(a: int, b: int) -> int {
    if a >= b {
        a - b
    } else {
        0
    }
}

/// The column of beat `beat` of `total` on a line `width` columns wide:
/// the beats are spread evenly from the first column to the last.
pub open spec fn x_of_spec(beat: usize, total: usize, width: usize) -> int {
    if total <= 1 {
        0
    } else {
        beat * sat_sub(width as int, 1) / (total - 1)
    }
}

/// The column of a beat (see `x_of_spec`).
pub fn x_of(beat: usize, total: usize, width: usize) -> (r: usize)
    requires
        total > 1 ==> beat * sat_sub(width as int, 1) <= usize::MAX,
    ensures
        r == x_of_spec(beat, total, width),
{
    if total <= 1 {
        0
    } else {
        let w1: usize = if width >= 1 {
            width - 1
        } else {
            0
        };
        beat * w1 / (total - 1)
    }
}

/// The row of a branch bracket's apex over a track on row `track_row`:
/// longer spans arc higher, never above row 1 (row 0 when the track is too
/// close to the top).
pub open spec fn apex_row_spec(track_row: usize, span: usize, width: usize) -> int {
    if track_row < 2 {
        0
    } else {
        let lift = 1 + span * sat_sub(track_row - 1, 1) / (if width >= 1 {
            width as int
        } else {
            1
        });
        let r = sat_sub(track_row as int, lift);
        if r >= 1 {
            r
        } else {
            1
        }
    }
}

/// The row of a bracket's apex (see `apex_row_spec`).
pub fn apex_row(track_row: usize, span: usize, width: usize) -> (r: usize)
    requires
        track_row >= 2 ==> 1 + span * (track_row - 2) <= usize::MAX,
    ensures
        r == apex_row_spec(track_row, span, width),
{
    if track_row < 2 {
        return 0;
    }
    let max_lift = track_row - 1;
    let m1 = max_lift - 1;
    let w: usize = if width >= 1 {
        width
    } else {
        1
    };
    proof {
        vstd::arithmetic::div_mod::lemma_div_is_ordered_by_denominator((span * m1) as int, 1, w as int);
        assert(span * m1 / 1 == span * m1);
    }
    let lift = 1 + span * m1 / w;
    let r = if track_row >= lift {
        track_row - lift
    } else {
        0
    };
    if r >= 1 {
        r
    } else {
        1
    }
}

/// Every branch of the graph, beat by beat.
pub open spec fn flatten_edges(neighbours: Seq<Vec<Branch>>) -> Seq<Branch>
    decreases neighbours.len(),
{
    if neighbours.len() == 0 {
        Seq::empty()
    } else {
        flatten_edges(neighbours.drop_last()) + neighbours.last()@
    }
}

/// The branches of the web: none when it is off, else every branch in
/// order, at most `max` of them unless `max` is zero.
pub open spec fn web_edges_spec(neighbours: Seq<Vec<Branch>>, show_web: bool, max: usize) -> Seq<Branch> {
    let all = flatten_edges(neighbours);
    if !show_web {
        Seq::empty()
    } else if max != 0 && max < all.len() {
        all.take(max as int)
    } else {
        all
    }
}

proof fn lemma_flatten_push(neighbours: Seq<Vec<Branch>>, i: int)
    requires
        0 <= i < neighbours.len(),
    ensures
        flatten_edges(neighbours.take(i + 1)) == flatten_edges(neighbours.take(i)) + neighbours[i]@,
{
    assert(neighbours.take(i + 1).drop_last() =~= neighbours.take(i));
}

/// The branches to draw as the web, each with its index (which picks its
/// colour).
pub fn web_edges(neighbours: &Vec<Vec<Branch>>, show_web: bool, max: usize) -> (r: Vec<(usize, Branch)>)
    ensures
        r@.len() == web_edges_spec(neighbours@, show_web, max).len(),
        forall|k: int| 0 <= k < r@.len() ==> #[trigger] r@[k] == (k as usize, web_edges_spec(neighbours@, show_web, max)[k]),
{
    let mut out: Vec<(usize, Branch)> = Vec::new();
    if !show_web {
        return out;
    }
    let ghost nb = neighbours@;
    let mut i: usize = 0;
    while i < neighbours.len()
        invariant
            show_web,
            nb == neighbours@,
            i <= nb.len(),
            out@.len() == flatten_edges(nb.take(i as int)).len(),
            max != 0 ==> out@.len() <= max,
            forall|k: int| 0 <= k < out@.len() ==> #[trigger] out@[k] == (k as usize, flatten_edges(nb.take(i as int))[k]),
        decreases nb.len() - i,
    {
        let edges = &neighbours[i];
        let ghost prefix = flatten_edges(nb.take(i as int));
        proof {
            lemma_flatten_push(nb, i as int);
        }
        let mut j: usize = 0;
        while j < edges.len()
            invariant
                show_web,
                nb == neighbours@,
                i < nb.len(),
                *edges == nb[i as int],
                prefix == flatten_edges(nb.take(i as int)),
                flatten_edges(nb.take(i + 1)) == prefix + edges@,
                j <= edges@.len(),
                out@.len() == prefix.len() + j,
                max != 0 ==> out@.len() <= max,
                forall|k: int| 0 <= k < out@.len() ==> #[trigger] out@[k] == (k as usize, (prefix + edges@)[k]),
            decreases edges@.len() - j,
        {
            let n = out.len();
            if max != 0 && n >= max {
                proof {
                    let all = flatten_edges(nb);
                    let cur = prefix + edges@;
                    assert(n == max);
                    lemma_flatten_is_prefix(nb, i as int + 1);
                    assert(cur == flatten_edges(nb.take(i + 1)));
                    assert(cur.len() <= all.len());
                    assert forall|k: int| 0 <= k < out@.len() implies #[trigger] out@[k] == (
                        k as usize,
                        web_edges_spec(nb, show_web, max)[k],
                    ) by {
                        assert(flatten_edges(nb.take(i + 1))[k] == all[k]);
                    }
                }
                return out;
            }
            let ghost before = out@;
            out.push((n, edges[j]));
            proof {
                assert forall|k: int| 0 <= k < out@.len() implies #[trigger] out@[k] == (
                    k as usize,
                    (prefix + edges@)[k],
                ) by {
                    if k < before.len() {
                        assert(out@[k] == before[k]);
                    }
                }
            }
            j = j + 1;
        }
        assert(edges@.subrange(0, j as int) =~= edges@);
        i = i + 1;
    }
    proof {
        assert(nb.take(nb.len() as int) =~= nb);
        let all = flatten_edges(nb);
        assert(out@.len() == all.len());
        assert(web_edges_spec(nb, show_web, max) == all);
        assert forall|k: int| 0 <= k < out@.len() implies #[trigger] out@[k] == (k as usize, all[k]) by {
            assert(out@[k] == (k as usize, flatten_edges(nb.take(nb.len() as int))[k]));
        }
    }
    out
}

/// The branches of the first `n` beats come first among all of them.
proof fn lemma_flatten_is_prefix(neighbours: Seq<Vec<Branch>>, n: int)
    requires
        0 <= n <= neighbours.len(),
    ensures
        flatten_edges(neighbours.take(n)).len() <= flatten_edges(neighbours).len(),
        forall|k: int| 0 <= k < flatten_edges(neighbours.take(n)).len() ==> #[trigger] flatten_edges(
            neighbours.take(n),
        )[k] == flatten_edges(neighbours)[k],
    decreases neighbours.len() - n,
{
    if n == neighbours.len() {
        assert(neighbours.take(n) =~= neighbours);
    } else {
        lemma_flatten_is_prefix(neighbours, n + 1);
        lemma_flatten_push(neighbours, n);
        let a = flatten_edges(neighbours.take(n));
        let b = flatten_edges(neighbours.take(n + 1));
        assert forall|k: int| 0 <= k < a.len() implies #[trigger] a[k] == flatten_edges(neighbours)[k] by {
            assert(a[k] == b[k]);
        }
    }
}

/// The layouts that show the web unless configured otherwise.
pub open spec fn default_layouts() -> Seq<Seq<char>> {
    seq!["linear"@, "radial"@, "split"@]
}

/// Whether to draw the web for `layout` (on unless switched off, and only
/// for the configured layouts) and the cap on branches drawn (zero: none).
pub fn branch_render(
    show_all: Option<bool>,
    layouts: Option<&Vec<String>>,
    layout: &str,
    max_drawn: Option<usize>,
) -> (r: (bool, usize))
    ensures
        r.0 == (show_all != Some(false) && match layouts {
            Some(ls) => exists|i: int| 0 <= i < ls@.len() && #[trigger] ls@[i]@ == layout@,
            None => default_layouts().contains(layout@),
        }),
        r.1 == (match max_drawn {
            Some(m) => m,
            None => 0,
        }),
{
    let show = match show_all {
        Some(b) => b,
        None => true,
    };
    let listed = match layouts {
        Some(ls) => {
            let mut found = false;
            let mut i: usize = 0;
            while i < ls.len()
                invariant
                    i <= ls@.len(),
                    found == exists|k: int| 0 <= k < i && #[trigger] ls@[k]@ == layout@,
                decreases ls@.len() - i,
            {
                if str_eq(ls[i].as_str(), layout) {
                    found = true;
                }
                i = i + 1;
            }
            found
        },
        None => {
            proof {
                reveal_strlit("linear");
                reveal_strlit("radial");
                reveal_strlit("split");
            }
            let a = str_eq(layout, "linear");
            let b = str_eq(layout, "radial");
            let c = str_eq(layout, "split");
            proof {
                let d = default_layouts();
                if d.contains(layout@) {
                    let k = choose|k: int| 0 <= k < d.len() && d[k] == layout@;
                    assert(k == 0 || k == 1 || k == 2);
                }
                if a {
                    assert(d[0] == layout@);
                }
                if b {
                    assert(d[1] == layout@);
                }
                if c {
                    assert(d[2] == layout@);
                }
            }
            a || b || c
        },
    };
    let max = match max_drawn {
        Some(m) => m,
        None => 0,
    };
    (show && listed, max)
}

/// The selected beat after a move by `delta` on a song of `total` beats
/// playing beat `current`: from the selection, or from the playing beat when
/// none, kept within the song.
pub open spec fn moved_selection(selected: Option<usize>, current: usize, total: usize, delta: i64) -> usize {
    let from = match selected {
        Some(s) => s,
        None => current,
    };
    if from + delta < 0 {
        0
    } else if from + delta > total - 1 {
        (total - 1) as usize
    } else {
        (from + delta) as usize
    }
}

/// What a key does on the jukebox page.
#[derive(Debug, Clone, Copy, PartialEq, Eq, Structural)]
pub enum JukeboxKey {
    Char(char),
    Left,
    Right,
    Enter,
    Other,
}

/// The jukebox commands.
#[derive(Debug, Clone, Copy, PartialEq, Eq, Structural)]
pub enum JukeboxCommand {
    ViewCycle,
    Bounce,
    SeekToBeat,
    Toggle,
    Settings,
    Graphics,
}

/// What the page leaves to the application.
#[derive(Debug, Clone, Copy, PartialEq, Eq, Structural)]
pub enum PageAction {
    Nothing,
    /// Switch picture rendering on or off.
    ToggleGraphics,
    /// Open the settings dialog.
    OpenSettings,
}

/// Which picture the page draws.
#[derive(Debug, Clone, Copy, PartialEq, Eq, Structural)]
pub enum DrawPlan {
    /// A centred message.
    Status(StatusMessage),
    Linear,
    Radial,
    Split,
    /// The pane is too small for anything.
    Nothing,
}

/// The messages of the page.
#[derive(Debug, Clone, Copy, PartialEq, Eq, Structural)]
pub enum StatusMessage {
    Off,
    NoAnalysis,
}

/// The text of a status message.
pub fn status_text(m: StatusMessage) -> (r: &'static str)
    ensures
        r@ == (match m {
            StatusMessage::Off => "Jukebox is off. Run :jukeboxtoggle to start."@,
            StatusMessage::NoAnalysis => "No analysis available for this track."@,
        }),
{
    match m {
        StatusMessage::Off => "Jukebox is off. Run :jukeboxtoggle to start.",
        StatusMessage::NoAnalysis => "No analysis available for this track.",
    }
}

/// The picture for a pane `width` x `height`: none without a song state
/// (the jukebox is off) or without analysis; the chosen mode, where radial
/// needs 8 x 8 and split 30 x 8 or else falls back to linear; linear needs a
/// width and four rows; a song without beats has no analysis.
pub open spec fn draw_plan_spec(song: Option<(bool, usize)>, mode: ViewMode, width: usize, height: usize) -> DrawPlan {
    match song {
        None => DrawPlan::Status(StatusMessage::Off),
        Some((no_analysis, total)) => if no_analysis {
            DrawPlan::Status(StatusMessage::NoAnalysis)
        } else {
            let m = match mode {
                ViewMode::Radial => if width < 8 || height < 8 {
                    ViewMode::Linear
                } else {
                    ViewMode::Radial
                },
                ViewMode::Split => if width < 30 || height < 8 {
                    ViewMode::Linear
                } else {
                    ViewMode::Split
                },
                ViewMode::Linear => ViewMode::Linear,
            };
            if m == ViewMode::Linear && (width == 0 || height < 4) {
                DrawPlan::Nothing
            } else if total == 0 {
                DrawPlan::Status(StatusMessage::NoAnalysis)
            } else {
                match m {
                    ViewMode::Linear => DrawPlan::Linear,
                    ViewMode::Radial => DrawPlan::Radial,
                    ViewMode::Split => DrawPlan::Split,
                }
            }
        },
    }
}

/// Which picture to draw, for a song state `(no_analysis, beats)` if any.
pub fn draw_plan(song: Option<(bool, usize)>, mode: ViewMode, width: usize, height: usize) -> (r: DrawPlan)
    ensures
        r == draw_plan_spec(song, mode, width, height),
{
    let (no_analysis, total) = match song {
        None => return DrawPlan::Status(StatusMessage::Off),
        Some(s) => s,
    };
    if no_analysis {
        return DrawPlan::Status(StatusMessage::NoAnalysis);
    }
    let m = match mode {
        ViewMode::Radial => if width < 8 || height < 8 {
            ViewMode::Linear
        } else {
            ViewMode::Radial
        },
        ViewMode::Split => if width < 30 || height < 8 {
            ViewMode::Linear
        } else {
            ViewMode::Split
        },
        ViewMode::Linear => ViewMode::Linear,
    };
    let linear = match m {
        ViewMode::Linear => true,
        _ => false,
    };
    if linear && (width == 0 || height < 4) {
        DrawPlan::Nothing
    } else if total == 0 {
        DrawPlan::Status(StatusMessage::NoAnalysis)
    } else {
        match m {
            ViewMode::Linear => DrawPlan::Linear,
            ViewMode::Radial => DrawPlan::Radial,
            ViewMode::Split => DrawPlan::Split,
        }
    }
}

/// `n` with at least two digits.
pub open spec fn two_digits(n: nat) -> Seq<char> {
    if n < 10 {
        seq!['0'] + decimal_digits(n)
    } else {
        decimal_digits(n)
    }
}

/// The statistics line: `beat <n>/<total>   branch <p>%   jumps <j>
/// listened <m>:<ss>`, with `   [bounce]` while bouncing.
pub open spec fn stats_line_spec(
    current_beat: u64,
    total: u64,
    branch_percent: u64,
    jumps: u64,
    listen_ms: u64,
    bouncing: bool,
) -> Seq<char> {
    "beat "@ + decimal_digits(current_beat as nat + 1) + "/"@ + decimal_digits(total as nat) + "   branch "@
        + decimal_digits(branch_percent as nat) + "%   jumps "@ + decimal_digits(jumps as nat) + "   listened "@
        + decimal_digits((listen_ms / 60000) as nat) + ":"@ + two_digits(((listen_ms / 1000) % 60) as nat) + (
    if bouncing {
        "   [bounce]"@
    } else {
        Seq::empty()
    })
}

fn push_str(s: &mut String, t: &str)
    ensures
        final(s)@ == old(s)@ + t@,
{
    s.append(t);
}

/// The statistics line (see `stats_line_spec`); the branch chance comes
/// rounded to a whole percent.
pub fn stats_line(
    current_beat: u64,
    total: u64,
    branch_percent: u64,
    jumps: u64,
    listen_ms: u64,
    bouncing: bool,
) -> (r: String)
    requires
        current_beat < u64::MAX,
    ensures
        r@ == stats_line_spec(current_beat, total, branch_percent, jumps, listen_ms, bouncing),
{
    let mut s = String::from_str("beat ");
    push_str(&mut s, decimal_string(current_beat + 1).as_str());
    push_str(&mut s, "/");
    push_str(&mut s, decimal_string(total).as_str());
    push_str(&mut s, "   branch ");
    push_str(&mut s, decimal_string(branch_percent).as_str());
    push_str(&mut s, "%   jumps ");
    push_str(&mut s, decimal_string(jumps).as_str());
    push_str(&mut s, "   listened ");
    push_str(&mut s, decimal_string(listen_ms / 60000).as_str());
    push_str(&mut s, ":");
    let secs = (listen_ms / 1000) % 60;
    if secs < 10 {
        push_char(&mut s, '0');
    }
    push_str(&mut s, decimal_string(secs).as_str());
    if bouncing {
        push_str(&mut s, "   [bounce]");
    }
    s
}


/// The heading of the linear picture: a play or pause sign, then the title.
pub open spec fn linear_heading_spec(enabled: bool, title: Seq<char>) -> Seq<char> {
    "Eternal Jukebox "@ + (if enabled {
        "\u{25b6}"@
    } else {
        "\u{23f8}"@
    }) + "  "@ + title
}

/// The heading of the linear picture.
pub fn linear_heading(enabled: bool, title: &str) -> (r: String)
    ensures
        r@ == linear_heading_spec(enabled, title@),
{
    let mut s = String::from_str("Eternal Jukebox ");
    push_str(&mut s, if enabled {
        "\u{25b6}"
    } else {
        "\u{23f8}"
    });
    push_str(&mut s, "  ");
    push_str(&mut s, title);
    s
}

/// The heading of the radial picture: the title.
pub fn radial_heading(title: &str) -> (r: String)
    ensures
        r@ == "Eternal Jukebox  "@ + title@,
{
    let mut s = String::from_str("Eternal Jukebox  ");
    push_str(&mut s, title);
    s
}

/// The side panel of the split picture: each line with its row. The title
/// is cut to its first twenty characters.
pub open spec fn split_panel_spec(
    title: Seq<char>,
    current_beat: u64,
    total: u64,
    beats_played: u64,
    branch_percent: u64,
    jumps: u64,
    listen_ms: u64,
    bouncing: bool,
) -> Seq<(usize, Seq<char>)> {
    seq![
        (1usize, "Now Playing"@),
        (2usize, if title.len() <= 20 {
            title
        } else {
            title.take(20)
        }),
        (4usize, "Beat   "@ + decimal_digits(current_beat as nat + 1) + "/"@ + decimal_digits(total as nat)),
        (9usize, "Played "@ + decimal_digits(beats_played as nat)),
        (5usize, "Branch "@ + decimal_digits(branch_percent as nat) + "%"@),
        (6usize, "Jumps  "@ + decimal_digits(jumps as nat)),
        (7usize, "Listen "@ + decimal_digits((listen_ms / 60000) as nat) + ":"@ + two_digits(
            ((listen_ms / 1000) % 60) as nat,
        )),
    ] + (if bouncing {
        seq![(8usize, "[bounce]"@)]
    } else {
        Seq::empty()
    })
}

/// The value of panel lines.
pub open spec fn panel_view(v: Vec<(usize, String)>) -> Seq<(usize, Seq<char>)> {
    v@.map_values(|l: (usize, String)| (l.0, l.1@))
}

fn push_line(v: &mut Vec<(usize, String)>, row: usize, text: String)
    ensures
        panel_view(*final(v)) == panel_view(*old(v)).push((row, text@)),
{
    let ghost before = panel_view(*v);
    v.push((row, text));
    assert(panel_view(*v) =~= before.push((row, text@)));
}

/// The side panel of the split picture.
pub fn split_panel(
    title: &str,
    current_beat: u64,
    total: u64,
    beats_played: u64,
    branch_percent: u64,
    jumps: u64,
    listen_ms: u64,
    bouncing: bool,
) -> (r: Vec<(usize, String)>)
    requires
        current_beat < u64::MAX,
    ensures
        panel_view(r) == split_panel_spec(
            title@,
            current_beat,
            total,
            beats_played,
            branch_percent,
            jumps,
            listen_ms,
            bouncing,
        ),
{
    let mut v: Vec<(usize, String)> = Vec::new();
    push_line(&mut v, 1, String::from_str("Now Playing"));
    let n = title.unicode_len();
    let take = if n <= 20 {
        n
    } else {
        20
    };
    let mut cut = String::new();
    let mut i: usize = 0;
    while i < take
        invariant
            take <= title@.len(),
            i <= take,
            cut@ == title@.subrange(0, i as int),
        decreases take - i,
    {
        push_char(&mut cut, title.get_char(i));
        i = i + 1;
        assert(cut@ =~= title@.subrange(0, i as int));
    }
    proof {
        if n <= 20 {
            assert(cut@ =~= title@);
        } else {
            assert(cut@ =~= title@.take(20));
        }
    }
    push_line(&mut v, 2, cut);
    let mut beat = String::from_str("Beat   ");
    push_str(&mut beat, decimal_string(current_beat + 1).as_str());
    push_str(&mut beat, "/");
    push_str(&mut beat, decimal_string(total).as_str());
    push_line(&mut v, 4, beat);
    let mut played = String::from_str("Played ");
    push_str(&mut played, decimal_string(beats_played).as_str());
    push_line(&mut v, 9, played);
    let mut branch = String::from_str("Branch ");
    push_str(&mut branch, decimal_string(branch_percent).as_str());
    push_str(&mut branch, "%");
    push_line(&mut v, 5, branch);
    let mut j = String::from_str("Jumps  ");
    push_str(&mut j, decimal_string(jumps).as_str());
    push_line(&mut v, 6, j);
    let mut listen = String::from_str("Listen ");
    push_str(&mut listen, decimal_string(listen_ms / 60000).as_str());
    push_str(&mut listen, ":");
    let secs = (listen_ms / 1000) % 60;
    if secs < 10 {
        push_char(&mut listen, '0');
    }
    push_str(&mut listen, decimal_string(secs).as_str());
    assert(listen@ =~= "Listen "@ + decimal_digits((listen_ms / 60000) as nat) + ":"@ + two_digits(
        ((listen_ms / 1000) % 60) as nat,
    ));
    push_line(&mut v, 7, listen);
    if bouncing {
        push_line(&mut v, 8, String::from_str("[bounce]"));
    }
    proof {
        assert(panel_view(v) =~= split_panel_spec(
            title@,
            current_beat,
            total,
            beats_played,
            branch_percent,
            jumps,
            listen_ms,
            bouncing,
        ));
    }
    v
}

/// The jukebox page: the beat selected for a seek, if any.
pub struct JukeboxView {
    selected_beat: Option<usize>,
}

impl JukeboxView {
    pub closed spec fn selected(&self) -> Option<usize> {
        self.selected_beat
    }

    /// A page without a selection.
    pub fn new() -> (r: Self)
        ensures
            r.selected() is None,
    {
        JukeboxView { selected_beat: None }
    }

    /// The selected beat.
    pub fn selected_beat(&self) -> (r: Option<usize>)
        ensures
            r == self.selected(),
    {
        self.selected_beat
    }

    /// Moves the selection by `delta` beats on a song `(current, total)`;
    /// nothing without a song or beats.
    pub fn move_selection(&mut self, song: Option<(usize, usize)>, delta: i64)
        requires
            song matches Some((c, t)) ==> t <= i64::MAX && c <= i64::MAX && (old(self).selected() matches Some(s)
                ==> s <= i64::MAX) && i64::MIN <= (match old(self).selected() {
                Some(s) => s,
                None => c,
            }) + delta <= i64::MAX,
        ensures
            final(self).selected() == (match song {
                Some((c, t)) => if t == 0 {
                    old(self).selected()
                } else {
                    Some(moved_selection(old(self).selected(), c, t, delta))
                },
                None => old(self).selected(),
            }),
            song matches Some((c, t)) ==> (t > 0 ==> (final(self).selected() matches Some(b) && b < t)),
    {
        let (current, total) = match song {
            Some(s) => s,
            None => return,
        };
        if total == 0 {
            return;
        }
        let from = match self.selected_beat {
            Some(s) => s,
            None => current,
        };
        let t: i64 = from as i64 + delta;
        let hi: i64 = total as i64 - 1;
        let v: i64 = if t < 0 {
            0
        } else if t > hi {
            hi
        } else {
            t
        };
        self.selected_beat = Some(v as usize);
    }

    /// Asks the jukebox to seek to the selected beat, if any.
    pub fn seek_to_selection(&self, jukebox: &mut Jukebox)
        ensures
            final(jukebox).view() == (match self.selected() {
                Some(b) => crate::jukebox::Switches { seek_request: Some(b), ..old(jukebox).view() },
                None => old(jukebox).view(),
            }),
    {
        if let Some(b) = self.selected_beat {
            jukebox.request_seek_to_beat(b);
        }
    }

    /// A key on the page: `l`/Right and `h`/Left move the selection, Enter
    /// seeks to it, `v` cycles the view, `g` switches pictures, `b` bounce,
    /// `i` the jukebox. Says whether the key was taken, and what is left to
    /// the application.
    pub fn on_event(&mut self, key: JukeboxKey, jukebox: &mut Jukebox, song: Option<(usize, usize)>) -> (r: (
        bool,
        PageAction,
    ))
        requires
            song matches Some((c, t)) ==> t <= i64::MAX && c < i64::MAX && (old(self).selected() matches Some(s)
                ==> s < i64::MAX),
        ensures
            match key {
                JukeboxKey::Right | JukeboxKey::Char('l') => r == (true, PageAction::Nothing) && final(jukebox).view()
                    == old(jukebox).view() && final(self).selected() == (match song {
                    Some((c, t)) => if t == 0 {
                        old(self).selected()
                    } else {
                        Some(moved_selection(old(self).selected(), c, t, 1i64))
                    },
                    None => old(self).selected(),
                }),
                JukeboxKey::Left | JukeboxKey::Char('h') => r == (true, PageAction::Nothing) && final(jukebox).view()
                    == old(jukebox).view() && final(self).selected() == (match song {
                    Some((c, t)) => if t == 0 {
                        old(self).selected()
                    } else {
                        Some(moved_selection(old(self).selected(), c, t, -1i64))
                    },
                    None => old(self).selected(),
                }),
                JukeboxKey::Enter => r == (true, PageAction::Nothing) && final(self).selected() == old(self).selected()
                    && final(jukebox).view() == (match old(self).selected() {
                    Some(b) => crate::jukebox::Switches { seek_request: Some(b), ..old(jukebox).view() },
                    None => old(jukebox).view(),
                }),
                JukeboxKey::Char('v') => r == (true, PageAction::Nothing) && final(self).selected()
                    == old(self).selected() && final(jukebox).view() == (crate::jukebox::Switches {
                    view_mode: crate::jukebox::view_mode::next_mode(old(jukebox).view().view_mode),
                    ..old(jukebox).view()
                }),
                JukeboxKey::Char('g') => r == (true, PageAction::ToggleGraphics) && final(self).selected()
                    == old(self).selected() && final(jukebox).view() == old(jukebox).view(),
                JukeboxKey::Char('b') => r == (true, PageAction::Nothing) && final(self).selected()
                    == old(self).selected() && final(jukebox).view() == (crate::jukebox::Switches {
                    bouncing: !old(jukebox).view().bouncing,
                    ..old(jukebox).view()
                }),
                JukeboxKey::Char('i') => r == (true, PageAction::Nothing) && final(self).selected()
                    == old(self).selected() && final(jukebox).view() == (crate::jukebox::Switches {
                    enabled: !old(jukebox).view().enabled,
                    ..old(jukebox).view()
                }),
                _ => r == (false, PageAction::Nothing) && final(self).selected() == old(self).selected()
                    && final(jukebox).view() == old(jukebox).view(),
            },
    {
        match key {
            JukeboxKey::Right | JukeboxKey::Char('l') => {
                self.move_selection(song, 1);
                (true, PageAction::Nothing)
            },
            JukeboxKey::Left | JukeboxKey::Char('h') => {
                self.move_selection(song, -1);
                (true, PageAction::Nothing)
            },
            JukeboxKey::Enter => {
                self.seek_to_selection(jukebox);
                (true, PageAction::Nothing)
            },
            JukeboxKey::Char('v') => {
                jukebox.cycle_view_mode();
                (true, PageAction::Nothing)
            },
            JukeboxKey::Char('g') => (true, PageAction::ToggleGraphics),
            JukeboxKey::Char('b') => {
                jukebox.toggle_bounce();
                (true, PageAction::Nothing)
            },
            JukeboxKey::Char('i') => {
                jukebox.toggle();
                (true, PageAction::Nothing)
            },
            _ => (false, PageAction::Nothing),
        }
    }

    /// A jukebox command, which the page always takes.
    pub fn on_command(&mut self, cmd: JukeboxCommand, jukebox: &mut Jukebox) -> (r: PageAction)
        ensures
            final(self).selected() == old(self).selected(),
            match cmd {
                JukeboxCommand::ViewCycle => r == PageAction::Nothing && final(jukebox).view() == (crate::jukebox::Switches {
                    view_mode: crate::jukebox::view_mode::next_mode(old(jukebox).view().view_mode),
                    ..old(jukebox).view()
                }),
                JukeboxCommand::Bounce => r == PageAction::Nothing && final(jukebox).view() == (crate::jukebox::Switches {
                    bouncing: !old(jukebox).view().bouncing,
                    ..old(jukebox).view()
                }),
                JukeboxCommand::SeekToBeat => r == PageAction::Nothing && final(jukebox).view() == (match old(self).selected() {
                    Some(b) => crate::jukebox::Switches { seek_request: Some(b), ..old(jukebox).view() },
                    None => old(jukebox).view(),
                }),
                JukeboxCommand::Toggle => r == PageAction::Nothing && final(jukebox).view() == (crate::jukebox::Switches {
                    enabled: !old(jukebox).view().enabled,
                    ..old(jukebox).view()
                }),
                JukeboxCommand::Settings => r == PageAction::OpenSettings && final(jukebox).view() == old(jukebox).view(),
                JukeboxCommand::Graphics => r == PageAction::ToggleGraphics && final(jukebox).view() == old(jukebox).view(),
            },
    {
        match cmd {
            JukeboxCommand::ViewCycle => {
                jukebox.cycle_view_mode();
                PageAction::Nothing
            },
            JukeboxCommand::Bounce => {
                jukebox.toggle_bounce();
                PageAction::Nothing
            },
            JukeboxCommand::SeekToBeat => {
                self.seek_to_selection(jukebox);
                PageAction::Nothing
            },
            JukeboxCommand::Toggle => {
                jukebox.toggle();
                PageAction::Nothing
            },
            JukeboxCommand::Settings => PageAction::OpenSettings,
            JukeboxCommand::Graphics => PageAction::ToggleGraphics,
        }
    }
}

} // verus!
