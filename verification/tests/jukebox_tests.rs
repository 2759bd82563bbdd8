use ncspot::jukebox::driver::XorShiftRandom;
use ncspot::jukebox::settings::{
    AntiLoopSettings, JukeboxConfig, LoopCountMode, LoopCounter, LoopIdentity, LoopSkipAction,
};
use ncspot::jukebox::view_mode::ViewMode;
use ncspot::jukebox::{next_seed, render_key, DriverTicker, Jukebox, TrackStep};

#[test]
fn view_mode_cycles_linear_radial_split() {
    assert_eq!(ViewMode::Linear.next(), ViewMode::Radial);
    assert_eq!(ViewMode::Radial.next(), ViewMode::Split);
    assert_eq!(ViewMode::Split.next(), ViewMode::Linear);
    assert_eq!(ViewMode::Linear.next().next().next(), ViewMode::Linear);
}

#[test]
fn anti_loop_defaults_off() {
    let s = AntiLoopSettings::from_config(&JukeboxConfig::default());
    assert!(!s.enabled);
    assert_eq!(s.threshold, 4);
    assert_eq!(s.identity, LoopIdentity::Edge);
    assert_eq!(s.count_mode, LoopCountMode::Consecutive);
    assert_eq!(s.skip_action, LoopSkipAction::DifferentElseContinue);
    assert!(!s.break_last_branch);
    assert_eq!(s.counter, LoopCounter::Reset);
    assert_eq!(s, AntiLoopSettings::default());
}

#[test]
fn anti_loop_parses_config() {
    let c = JukeboxConfig {
        break_loops: Some(true),
        loop_threshold: Some(2),
        loop_identity: Some("distance".into()),
        loop_count_mode: Some("cumulative".into()),
        loop_skip_action: Some("continue".into()),
        break_last_branch: Some(true),
        loop_counter: Some("retire".into()),
    };
    let s = AntiLoopSettings::from_config(&c);
    assert!(s.enabled);
    assert_eq!(s.threshold, 2);
    assert_eq!(s.identity, LoopIdentity::Distance);
    assert_eq!(s.count_mode, LoopCountMode::Cumulative);
    assert_eq!(s.skip_action, LoopSkipAction::Continue);
    assert!(s.break_last_branch);
    assert_eq!(s.counter, LoopCounter::Retire);
}

#[test]
fn anti_loop_unknown_strings_and_zero_threshold_fall_back() {
    let c = JukeboxConfig { loop_identity: Some("bogus".into()), loop_threshold: Some(0), ..Default::default() };
    let s = AntiLoopSettings::from_config(&c);
    assert_eq!(s.identity, LoopIdentity::Edge);
    assert_eq!(s.threshold, 1);
}

#[test]
fn names_are_read_case_insensitively_and_round_trip() {
    assert_eq!(LoopIdentity::parse("DESTINATION"), LoopIdentity::Destination);
    assert_eq!(LoopSkipAction::parse("Different_Only"), LoopSkipAction::DifferentOnly);
    for v in [LoopIdentity::Edge, LoopIdentity::Destination, LoopIdentity::Distance] {
        assert_eq!(LoopIdentity::parse(v.as_str()), v);
    }
    for v in [LoopCountMode::Consecutive, LoopCountMode::Cumulative] {
        assert_eq!(LoopCountMode::parse(v.as_str()), v);
    }
    for v in [LoopSkipAction::DifferentElseContinue, LoopSkipAction::Continue, LoopSkipAction::DifferentOnly] {
        assert_eq!(LoopSkipAction::parse(v.as_str()), v);
    }
    for v in [LoopCounter::Reset, LoopCounter::Retire] {
        assert_eq!(LoopCounter::parse(v.as_str()), v);
    }
    assert_eq!(LoopCounter::parse("RESET"), LoopCounter::Reset);
    assert_eq!(LoopCountMode::parse("?"), LoopCountMode::Consecutive);
}

#[test]
fn xorshift_seed_is_made_odd_and_steps_like_xorshift64() {
    let mut r = XorShiftRandom::new(0);
    let mut x: u64 = 1;
    for _ in 0..5 {
        x ^= x << 13;
        x ^= x >> 7;
        x ^= x << 17;
        assert_eq!(r.next_bits(), x >> 11);
    }
}

use ncspot::jukebox::driver::{loop_key, Branch, BranchPicker, LoopKey, StepPlan};

fn graph_with_neighbours(neigh: Vec<Branch>) -> Vec<Vec<Branch>> {
    let mut beats: Vec<Vec<Branch>> = vec![Vec::new(); 10];
    beats[5] = neigh;
    beats
}

fn al(enabled: bool) -> AntiLoopSettings {
    AntiLoopSettings { enabled, threshold: 3, ..AntiLoopSettings::default() }
}

fn edge(source: usize, destination: usize) -> Branch {
    Branch { source, destination }
}

fn branch_once(p: &mut BranchPicker) -> usize {
    assert!(p.has_room());
    p.select_random_next_beat(5, true)
}

#[test]
fn antiloop_disabled_always_branches() {
    let mut p = BranchPicker::new(graph_with_neighbours(vec![edge(5, 1)]), 99, al(false), true);
    for _ in 0..6 {
        assert_eq!(branch_once(&mut p), 1);
    }
    assert_eq!(p.jumps(), 6);
}

#[test]
fn antiloop_skips_after_threshold_continues_linearly() {
    let mut p = BranchPicker::new(graph_with_neighbours(vec![edge(5, 1)]), 99, al(true), true);
    assert_eq!(branch_once(&mut p), 1);
    assert_eq!(branch_once(&mut p), 1);
    assert_eq!(branch_once(&mut p), 1);
    assert_eq!(branch_once(&mut p), 5);
    assert_eq!(branch_once(&mut p), 1);
}

#[test]
fn antiloop_substitutes_different_branch() {
    let anti = AntiLoopSettings {
        enabled: true,
        threshold: 3,
        count_mode: LoopCountMode::Cumulative,
        ..AntiLoopSettings::default()
    };
    let mut p = BranchPicker::new(graph_with_neighbours(vec![edge(5, 1), edge(5, 8)]), 99, anti, true);
    // Edge 5->1 at the limit, 5->8 fresh: the rotation's first candidate is
    // 5->1, so the under-limit 5->8 is taken instead.
    p.set_loop_count(LoopKey::Edge(5, 1), 3);
    assert_eq!(branch_once(&mut p), 8);
}

#[test]
fn antiloop_excludes_forced_last_branch() {
    let mut p = BranchPicker::new(graph_with_neighbours(vec![edge(5, 1)]), 5, al(true), true);
    for _ in 0..6 {
        assert_eq!(branch_once(&mut p), 1);
    }
}

#[test]
fn antiloop_breaks_forced_last_branch_when_asked() {
    let anti = AntiLoopSettings { break_last_branch: true, ..al(true) };
    let mut p = BranchPicker::new(graph_with_neighbours(vec![edge(5, 1)]), 5, anti, true);
    for _ in 0..3 {
        assert_eq!(branch_once(&mut p), 1);
    }
    assert_eq!(branch_once(&mut p), 5);
}

#[test]
fn antiloop_substitutes_an_under_limit_branch() {
    let anti = AntiLoopSettings { threshold: 1, count_mode: LoopCountMode::Cumulative, ..al(true) };
    let mut p = BranchPicker::new(graph_with_neighbours(vec![edge(5, 1), edge(5, 8)]), 99, anti, true);
    assert_eq!(branch_once(&mut p), 1);
    assert_eq!(branch_once(&mut p), 8);
    // Both loops at the limit: go on in order, and the skipped loop's count is reset.
    assert_eq!(branch_once(&mut p), 5);
    // 5->8 is at the limit, 5->1 was reset: it is taken in its place.
    assert_eq!(branch_once(&mut p), 1);
    assert_eq!(p.last_branch(), Some(edge(5, 1)));
}

#[test]
fn antiloop_continue_goes_on_in_order() {
    let anti = AntiLoopSettings { threshold: 1, skip_action: LoopSkipAction::Continue, ..al(true) };
    let mut p = BranchPicker::new(graph_with_neighbours(vec![edge(5, 1), edge(5, 2)]), 99, anti, true);
    assert_eq!(branch_once(&mut p), 1);
    assert_eq!(branch_once(&mut p), 2);
    assert_eq!(branch_once(&mut p), 1);
}

#[test]
fn antiloop_different_only_falls_back_to_the_branch() {
    let anti = AntiLoopSettings { threshold: 1, skip_action: LoopSkipAction::DifferentOnly, ..al(true) };
    let mut p = BranchPicker::new(graph_with_neighbours(vec![edge(5, 1)]), 99, anti, true);
    assert_eq!(branch_once(&mut p), 1);
    assert_eq!(branch_once(&mut p), 1);
    assert_eq!(p.jumps(), 2);
}

#[test]
fn antiloop_retire_keeps_cumulative_counts() {
    let anti = AntiLoopSettings {
        threshold: 1,
        count_mode: LoopCountMode::Cumulative,
        counter: LoopCounter::Retire,
        ..al(true)
    };
    let mut p = BranchPicker::new(graph_with_neighbours(vec![edge(5, 1)]), 99, anti, true);
    assert_eq!(branch_once(&mut p), 1);
    for _ in 0..4 {
        assert_eq!(branch_once(&mut p), 5);
    }
}

#[test]
fn no_branch_without_decision_or_neighbours() {
    let mut p = BranchPicker::new(graph_with_neighbours(vec![edge(5, 1)]), 99, al(false), true);
    assert_eq!(p.select_random_next_beat(5, false), 5);
    assert_eq!(p.select_random_next_beat(4, true), 4);
    assert_eq!(p.jumps(), 0);
}

#[test]
fn plan_steps_through_beats_and_asks_at_branch_points() {
    let mut p = BranchPicker::new(graph_with_neighbours(vec![edge(5, 1)]), 99, al(false), true);
    assert_eq!(p.plan_step(3, 10), StepPlan::Play(4));
    assert_eq!(p.plan_step(4, 10), StepPlan::AskBranch(5));
    assert_eq!(p.plan_step(9, 10), StepPlan::End);
}

#[test]
fn bouncing_alternates_between_seed_and_branch() {
    let mut p = BranchPicker::new(graph_with_neighbours(vec![edge(5, 1)]), 99, al(false), true);
    p.set_bouncing(true);
    assert_eq!(p.plan_step(5, 10), StepPlan::Play(5));
    assert_eq!(p.plan_step(5, 10), StepPlan::Play(1));
    assert_eq!(p.plan_step(1, 10), StepPlan::Play(5));
    p.set_bouncing(false);
    assert_eq!(p.plan_step(5, 10), StepPlan::Play(5));
    assert_eq!(p.plan_step(5, 10), StepPlan::Play(6));
}

#[test]
fn loop_keys_by_identity() {
    let b = edge(7, 2);
    assert_eq!(loop_key(b, LoopIdentity::Edge), LoopKey::Edge(7, 2));
    assert_eq!(loop_key(b, LoopIdentity::Destination), LoopKey::Dest(2));
    assert_eq!(loop_key(b, LoopIdentity::Distance), LoopKey::Dist(5));
    assert_eq!(loop_key(edge(2, 7), LoopIdentity::Distance), LoopKey::Dist(-5));
}

#[test]
fn taking_a_branch_resets_beats_since_last_branch() {
    let mut p = BranchPicker::new(graph_with_neighbours(vec![edge(5, 1)]), 99, al(false), true);
    p.note_beat();
    p.note_beat();
    assert_eq!(p.beats_since_last_branch(), 2);
    branch_once(&mut p);
    assert_eq!(p.beats_since_last_branch(), 0);
}

use ncspot::jukebox::graph::{calculate_reachability, filter_out_bad_branches, filter_out_sequential_branches};

fn weighted(source: usize, destination: usize, distance: f64) -> (Branch, f64) {
    (Branch { source, destination }, distance)
}

#[test]
fn bad_branches_past_the_last_branch_point_are_dropped() {
    let beats = vec![
        vec![weighted(0, 3, 1.0), weighted(0, 1, 2.0)],
        vec![weighted(1, 2, 3.0)],
        vec![weighted(2, 0, 4.0)],
        vec![weighted(3, 5, 5.0)],
    ];
    let out = filter_out_bad_branches(&beats, 2);
    assert_eq!(out[0], vec![weighted(0, 1, 2.0)]);
    assert!(out[1].is_empty());
    assert_eq!(out[2], vec![weighted(2, 0, 4.0)]);
    assert_eq!(out[3], vec![weighted(3, 5, 5.0)]);
}

#[test]
fn branches_repeating_the_previous_beat_are_dropped() {
    let beats = vec![
        vec![],
        vec![],
        vec![weighted(2, 0, 1.0)],
        vec![weighted(3, 1, 1.0), weighted(3, 0, 1.0)],
    ];
    let out = filter_out_sequential_branches(&beats, 99);
    assert_eq!(out[2], vec![weighted(2, 0, 1.0)]);
    assert_eq!(out[3], vec![weighted(3, 0, 1.0)]);
    // At the last branch point nothing counts as repeating.
    let kept = filter_out_sequential_branches(&beats, 3);
    assert_eq!(kept[3].len(), 2);
}

#[test]
fn reachability_without_branches_is_distance_to_end() {
    let beats: Vec<Vec<(Branch, f64)>> = vec![vec![]; 4];
    assert_eq!(calculate_reachability(&beats), vec![4, 3, 2, 1]);
}

#[test]
fn a_branch_back_to_the_start_lets_every_beat_reach_it() {
    let mut beats: Vec<Vec<(Branch, f64)>> = vec![vec![]; 4];
    beats[3] = vec![weighted(3, 0, 1.0)];
    assert_eq!(calculate_reachability(&beats), vec![4, 4, 4, 4]);
    let mut beats: Vec<Vec<(Branch, f64)>> = vec![vec![]; 5];
    beats[2] = vec![weighted(2, 1, 1.0)];
    assert_eq!(calculate_reachability(&beats), vec![5, 4, 4, 2, 1]);
}

#[test]
fn toggle_flips_enabled() {
    let mut j = Jukebox::new(false);
    assert!(!j.is_enabled());
    assert!(j.toggle());
    assert!(j.is_enabled());
    assert!(!j.toggle());
}

#[test]
fn seek_request_is_stored() {
    let mut j = Jukebox::new(false);
    j.request_seek_to_beat(7);
    assert_eq!(j.take_seek_request(), Some(7));
    assert_eq!(j.take_seek_request(), None);
}

#[test]
fn jukebox_cycles_view_modes() {
    let mut j = Jukebox::new(true);
    assert_eq!(j.view_mode(), ViewMode::Linear);
    assert_eq!(j.cycle_view_mode(), ViewMode::Radial);
    assert_eq!(j.cycle_view_mode(), ViewMode::Split);
    assert_eq!(j.cycle_view_mode(), ViewMode::Linear);
    assert_eq!(j.view_mode(), ViewMode::Linear);
}

#[test]
fn jukebox_bounce_and_rebuild_switches() {
    let mut j = Jukebox::new(true);
    assert!(!j.is_bouncing());
    j.toggle_bounce();
    assert!(j.is_bouncing());
    j.toggle_bounce();
    assert!(!j.is_bouncing());
    assert!(!j.take_rebuild());
    j.apply_settings();
    assert!(j.take_rebuild());
    assert!(!j.take_rebuild());
    j.set_enabled(false);
    assert!(!j.is_enabled());
}

#[test]
fn render_key_changes_with_current_beat() {
    let edge = Some(Branch { source: 4, destination: 1 });
    let k1 = render_key(ViewMode::Radial, true, 4, edge, 8, (40, 20), true, true, 0);
    let k2 = render_key(ViewMode::Radial, true, 2, edge, 8, (40, 20), true, true, 0);
    assert_ne!(k1, k2);
    assert_eq!(k1.last_branch, Some((4, 1)));
    assert_eq!(k1.total_beats, 8);
    let k3 = render_key(ViewMode::Radial, true, 4, edge, 8, (40, 20), true, true, 0);
    assert_eq!(k1, k3);
}

#[test]
fn next_seed_is_the_lcg_step() {
    assert_eq!(next_seed(0), 1442695040888963407);
    assert_eq!(next_seed(1), 6364136223846793005u64.wrapping_add(1442695040888963407));
    let s: u64 = 0x9E37_79B9_7F4A_7C15;
    assert_eq!(
        next_seed(s),
        s.wrapping_mul(6364136223846793005).wrapping_add(1442695040888963407)
    );
}

#[test]
fn ticker_builds_once_per_track() {
    let mut t = DriverTicker::new();
    let first = next_seed(0x9E37_79B9_7F4A_7C15);
    assert_eq!(t.on_track(Some("a")), TrackStep::Build(first));
    t.set_driving(true);
    assert_eq!(t.on_track(Some("a")), TrackStep::Same);
    assert_eq!(t.on_track(Some("b")), TrackStep::Build(next_seed(first)));
    assert_eq!(t.rebuild_seed(), next_seed(first) | 2);
    assert_eq!(t.on_track(None), TrackStep::NoAnalysis);
    assert_eq!(t.on_track(None), TrackStep::Same);
}

#[test]
fn ticker_drops_driver_when_disabled() {
    let mut t = DriverTicker::new();
    assert!(!t.on_disabled());
    t.on_track(Some("a"));
    t.set_driving(true);
    assert!(t.on_disabled());
    assert!(!t.on_disabled());
    // The track was forgotten: the same id builds again.
    assert!(matches!(t.on_track(Some("a")), TrackStep::Build(_)));
}

#[test]
fn ticker_cools_down_after_seek() {
    let mut t = DriverTicker::new();
    assert!(t.should_follow());
    t.after_seek(true);
    assert!(!t.should_follow());
    assert!(!t.should_follow());
    assert!(!t.should_follow());
    assert!(t.should_follow());
    t.after_seek(false);
    assert!(!t.should_follow());
    assert!(!t.should_follow());
    assert!(t.should_follow());
}

use ncspot::ui::jukebox::{
    apex_row, branch_render, draw_plan, linear_heading, radial_heading, split_panel, stats_line, status_text,
    web_edges, x_of, DrawPlan, JukeboxCommand, JukeboxKey, JukeboxView, PageAction, StatusMessage,
};

#[test]
fn beats_spread_across_the_line() {
    assert_eq!(x_of(0, 10, 100), 0);
    assert_eq!(x_of(9, 10, 100), 99);
    assert_eq!(x_of(3, 10, 100), 33);
    assert_eq!(x_of(5, 1, 100), 0);
    assert_eq!(x_of(5, 10, 0), 0);
}

#[test]
fn longer_branches_arc_higher() {
    assert_eq!(apex_row(1, 50, 100), 0);
    assert_eq!(apex_row(10, 0, 100), 9);
    assert_eq!(apex_row(10, 50, 100), 5);
    assert_eq!(apex_row(10, 100, 100), 1);
    assert_eq!(apex_row(10, 100, 0), 1);
}

#[test]
fn web_edges_in_order_with_cap() {
    let b = |s: usize, d: usize| Branch { source: s, destination: d };
    let nb = vec![vec![b(0, 3)], vec![], vec![b(2, 0), b(2, 1)]];
    assert_eq!(web_edges(&nb, false, 0), vec![]);
    assert_eq!(web_edges(&nb, true, 0), vec![(0, b(0, 3)), (1, b(2, 0)), (2, b(2, 1))]);
    assert_eq!(web_edges(&nb, true, 2), vec![(0, b(0, 3)), (1, b(2, 0))]);
    assert_eq!(web_edges(&nb, true, 5).len(), 3);
}

#[test]
fn branch_render_follows_settings() {
    assert_eq!(branch_render(None, None, "radial", None), (true, 0));
    assert_eq!(branch_render(None, None, "other", Some(4)), (false, 4));
    assert_eq!(branch_render(Some(false), None, "linear", None), (false, 0));
    let only_split = vec!["split".to_string()];
    assert_eq!(branch_render(None, Some(&only_split), "split", Some(9)), (true, 9));
    assert_eq!(branch_render(None, Some(&only_split), "linear", None), (false, 0));
}

#[test]
fn draw_plan_falls_back_to_linear() {
    assert_eq!(draw_plan(None, ViewMode::Linear, 80, 24), DrawPlan::Status(StatusMessage::Off));
    assert_eq!(draw_plan(Some((true, 10)), ViewMode::Linear, 80, 24), DrawPlan::Status(StatusMessage::NoAnalysis));
    assert_eq!(draw_plan(Some((false, 10)), ViewMode::Split, 80, 24), DrawPlan::Split);
    assert_eq!(draw_plan(Some((false, 10)), ViewMode::Split, 20, 24), DrawPlan::Linear);
    assert_eq!(draw_plan(Some((false, 10)), ViewMode::Radial, 80, 6), DrawPlan::Linear);
    assert_eq!(draw_plan(Some((false, 10)), ViewMode::Radial, 80, 3), DrawPlan::Nothing);
    assert_eq!(draw_plan(Some((false, 0)), ViewMode::Radial, 80, 24), DrawPlan::Status(StatusMessage::NoAnalysis));
    assert_eq!(status_text(StatusMessage::Off), "Jukebox is off. Run :jukeboxtoggle to start.");
    assert_eq!(status_text(StatusMessage::NoAnalysis), "No analysis available for this track.");
}

#[test]
fn stats_line_formats_numbers() {
    assert_eq!(
        stats_line(4, 120, 18, 3, 125_000, false),
        "beat 5/120   branch 18%   jumps 3   listened 2:05"
    );
    assert_eq!(
        stats_line(0, 1, 0, 0, 61_000, true),
        "beat 1/1   branch 0%   jumps 0   listened 1:01   [bounce]"
    );
    assert_eq!(stats_line(0, 1, 0, 0, 59_999, false), "beat 1/1   branch 0%   jumps 0   listened 0:59");
}

#[test]
fn page_keys_select_and_seek() {
    let mut page = JukeboxView::new();
    let mut j = Jukebox::new(true);
    let song = Some((5usize, 10usize));
    assert_eq!(page.on_event(JukeboxKey::Right, &mut j, song), (true, PageAction::Nothing));
    assert_eq!(page.selected_beat(), Some(6));
    page.on_event(JukeboxKey::Char('h'), &mut j, song);
    page.on_event(JukeboxKey::Char('h'), &mut j, song);
    assert_eq!(page.selected_beat(), Some(4));
    page.on_event(JukeboxKey::Enter, &mut j, song);
    assert_eq!(j.take_seek_request(), Some(4));
    assert_eq!(page.on_event(JukeboxKey::Char('g'), &mut j, song), (true, PageAction::ToggleGraphics));
    page.on_event(JukeboxKey::Char('v'), &mut j, song);
    assert_eq!(j.view_mode(), ViewMode::Radial);
    page.on_event(JukeboxKey::Char('b'), &mut j, song);
    assert!(j.is_bouncing());
    page.on_event(JukeboxKey::Char('i'), &mut j, song);
    assert!(!j.is_enabled());
    assert_eq!(page.on_event(JukeboxKey::Char('x'), &mut j, song), (false, PageAction::Nothing));
    // Selection stays within the song.
    for _ in 0..20 {
        page.on_event(JukeboxKey::Left, &mut j, song);
    }
    assert_eq!(page.selected_beat(), Some(0));
    // Without a song nothing moves.
    page.on_event(JukeboxKey::Right, &mut j, None);
    assert_eq!(page.selected_beat(), Some(0));
}

#[test]
fn page_commands() {
    let mut page = JukeboxView::new();
    let mut j = Jukebox::new(false);
    assert_eq!(page.on_command(JukeboxCommand::Settings, &mut j), PageAction::OpenSettings);
    assert_eq!(page.on_command(JukeboxCommand::Graphics, &mut j), PageAction::ToggleGraphics);
    assert_eq!(page.on_command(JukeboxCommand::Toggle, &mut j), PageAction::Nothing);
    assert!(j.is_enabled());
    page.on_command(JukeboxCommand::SeekToBeat, &mut j);
    assert_eq!(j.take_seek_request(), None);
    page.on_command(JukeboxCommand::ViewCycle, &mut j);
    assert_eq!(j.view_mode(), ViewMode::Radial);
    page.on_command(JukeboxCommand::Bounce, &mut j);
    assert!(j.is_bouncing());
}

use ncspot::ui::jukebox_settings::{collect_anti_loop, enum_select_index, eq_ignore_ascii_case};

#[test]
fn dropdown_starts_on_current_option() {
    let opts = ["edge", "destination", "distance"];
    assert_eq!(enum_select_index(&opts, "distance"), 2);
    assert_eq!(enum_select_index(&opts, "DESTINATION"), 1);
    assert_eq!(enum_select_index(&opts, "bogus"), 0);
    assert_eq!(enum_select_index(&[], "edge"), 0);
    assert!(eq_ignore_ascii_case("Retire", "rETIRE"));
    assert!(!eq_ignore_ascii_case("reset", "resets"));
}

#[test]
fn anti_loop_read_back_from_dialog() {
    let cur = AntiLoopSettings::default();
    let same = collect_anti_loop(&cur, None, None, None, None, None, None, None);
    assert_eq!(same, cur);
    let s = collect_anti_loop(
        &cur,
        Some(true),
        Some("7"),
        Some("distance"),
        Some("cumulative"),
        Some("different_only"),
        Some(true),
        Some("retire"),
    );
    assert!(s.enabled);
    assert_eq!(s.threshold, 7);
    assert_eq!(s.identity, LoopIdentity::Distance);
    assert_eq!(s.count_mode, LoopCountMode::Cumulative);
    assert_eq!(s.skip_action, LoopSkipAction::DifferentOnly);
    assert!(s.break_last_branch);
    assert_eq!(s.counter, LoopCounter::Retire);
    // A zero threshold becomes one; text that does not parse keeps the current one.
    assert_eq!(collect_anti_loop(&cur, None, Some("0"), None, None, None, None, None).threshold, 1);
    assert_eq!(collect_anti_loop(&cur, None, Some("x"), None, None, None, None, None).threshold, cur.threshold);
    assert_eq!(collect_anti_loop(&cur, None, Some("+3"), None, None, None, None, None).threshold, 3);
}

use ncspot::jukebox::analysis::{cache_key, eternalbox_url, source_order, spclient_endpoint};

#[test]
fn analysis_cache_key_stays_in_directory() {
    assert_eq!(cache_key("abc"), "abc");
    assert_eq!(cache_key("a/b\\c"), "a_b_c");
}

#[test]
fn analysis_sources_asked_in_configured_order() {
    let sources = vec![
        ("spclient".to_string(), true),
        ("eternalbox".to_string(), true),
        ("off".to_string(), false),
    ];
    let order = vec!["eternalbox".to_string(), "missing".to_string(), "off".to_string(), "spclient".to_string()];
    assert_eq!(source_order(&order, &sources), vec![1, 0]);
    assert_eq!(source_order(&[], &sources), Vec::<usize>::new());
    // A repeated id is asked again.
    let twice = vec!["spclient".to_string(), "spclient".to_string()];
    assert_eq!(source_order(&twice, &sources), vec![0, 0]);
}

use ncspot::jukebox::render::{disc_points, line_points};

#[test]
fn filled_circle_sets_center_clears_corner() {
    let pts = disc_points(5, 5, 2);
    assert!(pts.contains(&(5, 5)));
    assert!(!pts.contains(&(0, 0)));
    // Radius two: the 5x5 square without its four corners.
    assert_eq!(pts.len(), 13);
    assert!(!pts.contains(&(3, 3)));
    assert!(pts.contains(&(3, 5)));
    assert_eq!(disc_points(1, 1, 0), vec![(1, 1)]);
    assert_eq!(disc_points(1, 1, -4), vec![(1, 1)]);
}

#[test]
fn line_hits_endpoints() {
    let pts = line_points((0, 0), (9, 9));
    assert_eq!(pts.first(), Some(&(0, 0)));
    assert_eq!(pts.last(), Some(&(9, 9)));
    assert_eq!(pts.len(), 10);
}

#[test]
fn bresenham_walks() {
    assert_eq!(line_points((0, 0), (4, 1)), vec![(0, 0), (1, 0), (2, 1), (3, 1), (4, 1)]);
    assert_eq!(line_points((3, 3), (3, 3)), vec![(3, 3)]);
    assert_eq!(line_points((2, 5), (2, 2)), vec![(2, 5), (2, 4), (2, 3), (2, 2)]);
    assert_eq!(line_points((0, 0), (-2, -2)), vec![(0, 0), (-1, -1), (-2, -2)]);
}

#[test]
fn analysis_source_addresses() {
    assert_eq!(spclient_endpoint("4uLU6hMCjMI75M1A2tKUQC"), "/audio-attributes/v1/audio-analysis/4uLU6hMCjMI75M1A2tKUQC?format=json");
    assert_eq!(eternalbox_url("https://eternalbox.dev//", "abc"), "https://eternalbox.dev/api/analysis/analyse/abc");
    assert_eq!(eternalbox_url("http://host", "x"), "http://host/api/analysis/analyse/x");
    assert_eq!(eternalbox_url("", "x"), "/api/analysis/analyse/x");
}

#[test]
fn headings_and_split_panel() {
    assert_eq!(linear_heading(true, "Song"), "Eternal Jukebox \u{25b6}  Song");
    assert_eq!(linear_heading(false, "Song"), "Eternal Jukebox \u{23f8}  Song");
    assert_eq!(radial_heading("Song"), "Eternal Jukebox  Song");
    let panel = split_panel("A rather long title for a song", 9, 200, 42, 18, 3, 65_000, true);
    let lines: Vec<(usize, &str)> = panel.iter().map(|(r, t)| (*r, t.as_str())).collect();
    assert_eq!(
        lines,
        vec![
            (1, "Now Playing"),
            (2, "A rather long title "),
            (4, "Beat   10/200"),
            (9, "Played 42"),
            (5, "Branch 18%"),
            (6, "Jumps  3"),
            (7, "Listen 1:05"),
            (8, "[bounce]"),
        ]
    );
    assert_eq!(split_panel("Short", 0, 1, 0, 0, 0, 0, false).len(), 7);
}

#[test]
fn seed_low_bit_does_not_change_draws() {
    for seed in [0u64, 1, 2, 41, 0xFFFF_FFFF_FFFF_FFFE] {
        let mut a = XorShiftRandom::new(seed);
        let mut b = XorShiftRandom::new(seed | 1);
        for _ in 0..50 {
            assert_eq!(a.next_bits(), b.next_bits());
        }
    }
}
