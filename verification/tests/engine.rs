use ranked_stats::analysis_types::RelevantEvent;
use ranked_stats::events_reader::{Event, Team};
use ranked_stats::ranked_analysis::{RankedPlayerStats, RankedStatConfig};
use ranked_stats::records::{
    CombinedGameRecordsCollector, Leaderboard, PlayerGameStats, RecordsCollector,
    SignedLeaderboard, TeamRecordsCollector,
};

fn ev(time: usize, event_type: Event, player_index: usize, team: Team) -> RelevantEvent {
    RelevantEvent { time, event_type, player_index, team }
}

fn fresh(n: usize) -> Vec<RankedPlayerStats> {
    let mut v = Vec::new();
    for _ in 0..n {
        v.push(RankedPlayerStats::new());
    }
    v
}

fn dispatch(event: &RelevantEvent, cap_diff: &mut isize, stats: &mut Vec<RankedPlayerStats>) {
    let mut garbage: isize = 0;
    let mut red_fc = None;
    let mut blue_fc = None;
    let mut red_gt = None;
    let mut blue_gt = None;
    RankedStatConfig::apply_event(
        event,
        cap_diff,
        &mut garbage,
        &mut red_fc,
        &mut blue_fc,
        &mut red_gt,
        &mut blue_gt,
        stats,
    );
}

#[test]
fn garbage_time_counts_at_differential_four_past_the_early_boundary() {
    let mut stats = fresh(1);
    let mut cap_diff: isize = 4;
    dispatch(&ev(330 * 60 + 1, Event::Capture, 0, Team::Red), &mut cap_diff, &mut stats);
    assert_eq!(stats[0].garbage_time_caps, 1);
    assert_eq!(stats[0].caps, 1);
    assert_eq!(cap_diff, 5);
}

#[test]
fn garbage_time_does_not_count_at_differential_three_past_the_early_boundary() {
    let mut stats = fresh(1);
    let mut cap_diff: isize = 3;
    dispatch(&ev(330 * 60 + 1, Event::Capture, 0, Team::Red), &mut cap_diff, &mut stats);
    assert_eq!(stats[0].garbage_time_caps, 0);
    assert_eq!(stats[0].caps, 1);
    assert_eq!(cap_diff, 4);
}

#[test]
fn hold_accumulates_between_grab_and_drop() {
    let mut stats = fresh(1);
    let mut cap_diff: isize = 0;
    dispatch(&ev(100, Event::Grab, 0, Team::Red), &mut cap_diff, &mut stats);
    dispatch(&ev(250, Event::Drop, 0, Team::Red), &mut cap_diff, &mut stats);
    assert_eq!(stats[0].hold, 150);
    assert_eq!(stats[0].hold_start, None);
}

#[test]
fn quit_closes_the_hold_and_counts_as_a_pop() {
    let mut stats = fresh(1);
    let mut cap_diff: isize = 0;
    dispatch(&ev(100, Event::Grab, 0, Team::Blue), &mut cap_diff, &mut stats);
    dispatch(&ev(160, Event::Quit, 0, Team::Blue), &mut cap_diff, &mut stats);
    assert_eq!(stats[0].hold, 60);
    assert_eq!(stats[0].ndps, 1);
}

#[test]
fn keypop_scenario_credits_the_opposing_popper() {
    let events = vec![
        ev(950, Event::Pop, 1, Team::Blue),
        ev(1000, Event::Capture, 0, Team::Red),
    ];
    let mut stats = fresh(2);
    RankedStatConfig::process_keypops(&events, &mut stats);
    assert_eq!(stats[1].keypops, 1);
    assert_eq!(stats[0].keypops, 0);
}

#[test]
fn keypop_outside_the_window_is_not_credited() {
    let events = vec![
        ev(800, Event::Pop, 1, Team::Blue),
        ev(1000, Event::Capture, 0, Team::Red),
    ];
    let mut stats = fresh(2);
    RankedStatConfig::process_keypops(&events, &mut stats);
    assert_eq!(stats[1].keypops, 0);
}

#[test]
fn handoff_scenario_credits_the_dropper() {
    let events = vec![
        ev(100, Event::Drop, 0, Team::Red),
        ev(130, Event::Grab, 1, Team::Red),
        ev(300, Event::Capture, 1, Team::Red),
    ];
    let mut stats = fresh(2);
    RankedStatConfig::process_handoffs(&events, &mut stats);
    assert_eq!(stats[0].handoffs, 1);
    assert_eq!(stats[1].handoffs, 0);
}

#[test]
fn handoff_grab_outside_one_second_is_not_credited() {
    let events = vec![
        ev(100, Event::Drop, 0, Team::Red),
        ev(200, Event::Grab, 1, Team::Red),
        ev(300, Event::Capture, 1, Team::Red),
    ];
    let mut stats = fresh(2);
    RankedStatConfig::process_handoffs(&events, &mut stats);
    assert_eq!(stats[0].handoffs, 0);
}

#[test]
fn reset_scenario_counts_when_the_answer_never_sustains() {
    let events = vec![
        ev(1000, Event::Return, 0, Team::Red),
        ev(1100, Event::Grab, 1, Team::Blue),
        ev(1200, Event::Drop, 1, Team::Blue),
    ];
    let mut stats = fresh(2);
    let red_team = vec![0usize];
    let blue_team = vec![1usize];
    RankedStatConfig::process_resets(&events, &mut stats, &red_team, &blue_team);
    assert_eq!(stats[0].resets, 1);
}

#[test]
fn reset_is_denied_by_a_sustained_opposing_hold() {
    let events = vec![
        ev(1000, Event::Return, 0, Team::Red),
        ev(1100, Event::Grab, 1, Team::Blue),
        ev(1500, Event::Tag, 0, Team::Red),
    ];
    let mut stats = fresh(2);
    let red_team = vec![0usize];
    let blue_team = vec![1usize];
    RankedStatConfig::process_resets(&events, &mut stats, &red_team, &blue_team);
    assert_eq!(stats[0].resets, 0);
}

#[test]
fn goodprevent_scenario_credits_the_whole_interval() {
    let events = vec![
        ev(500, Event::StartPrevent, 0, Team::Red),
        ev(800, Event::StopPrevent, 0, Team::Red),
    ];
    let mut stats = fresh(1);
    let red_team = vec![0usize];
    let blue_team: Vec<usize> = Vec::new();
    RankedStatConfig::process_goodprevent(&events, &mut stats, &red_team, &blue_team);
    assert_eq!(stats[0].goodprevent, 300);
}

#[test]
fn goodprevent_is_denied_by_a_teammate_grab_inside_the_interval() {
    let events = vec![
        ev(500, Event::StartPrevent, 0, Team::Red),
        ev(600, Event::Grab, 1, Team::Red),
        ev(800, Event::StopPrevent, 0, Team::Red),
    ];
    let mut stats = fresh(2);
    let red_team = vec![0usize, 1usize];
    let blue_team: Vec<usize> = Vec::new();
    RankedStatConfig::process_goodprevent(&events, &mut stats, &red_team, &blue_team);
    assert_eq!(stats[0].goodprevent, 0);
}

#[test]
fn badflaccid_counts_a_quick_drop_answered_by_a_capture() {
    let events = vec![
        ev(100, Event::Grab, 0, Team::Red),
        ev(150, Event::Drop, 0, Team::Red),
        ev(300, Event::Capture, 1, Team::Blue),
    ];
    let mut stats = fresh(2);
    RankedStatConfig::process_badflaccids(&events, &mut stats);
    assert_eq!(stats[0].badflaccids, 1);
}

#[test]
fn sparkedout_counts_a_solo_sustained_grab() {
    let events = vec![
        ev(100, Event::Grab, 0, Team::Red),
        ev(450, Event::Tag, 1, Team::Blue),
    ];
    let mut stats = fresh(2);
    let red_team = vec![0usize];
    let blue_team = vec![1usize];
    RankedStatConfig::process_sparkedouts(&events, &mut stats, &red_team, &blue_team);
    assert_eq!(stats[0].sparkedouts, 1);
}

#[test]
fn quick_return_and_flaccid_grab_windows() {
    let mut red_gt = None;
    let mut blue_gt = None;
    let mut blue = PlayerGameStats::new();
    // The blue side grabs; a red return within two seconds is quick.
    RecordsCollector::process_event_static(
        Event::Grab,
        100,
        &mut blue,
        &mut red_gt,
        &mut blue_gt,
        Team::Blue,
        28800,
    );
    let mut red = PlayerGameStats::new();
    RecordsCollector::process_event_static(
        Event::Return,
        180,
        &mut red,
        &mut red_gt,
        &mut blue_gt,
        Team::Red,
        28800,
    );
    assert_eq!(red.quick_returns, 1);
    assert_eq!(red.returns, 1);
    assert_eq!(red.tags, 1);
    // The blue side drops within two seconds of its own grab: flaccid.
    RecordsCollector::process_event_static(
        Event::Drop,
        180,
        &mut blue,
        &mut red_gt,
        &mut blue_gt,
        Team::Blue,
        28800,
    );
    assert_eq!(blue.flaccid_grabs, 1);
    assert_eq!(blue.pops, 1);
    assert_eq!(blue.hold, 80);
}

#[test]
fn events_past_the_cutoff_are_ignored() {
    let mut red_gt = None;
    let mut blue_gt = None;
    let mut s = PlayerGameStats::new();
    RecordsCollector::process_event_static(
        Event::Tag,
        30000,
        &mut s,
        &mut red_gt,
        &mut blue_gt,
        Team::Red,
        28800,
    );
    assert_eq!(s.tags, 0);
}

#[test]
fn finalize_credits_open_intervals_up_to_the_cutoff() {
    let mut s = PlayerGameStats::new();
    s.hold_start = Some(28000);
    s.prevent_start = Some(100);
    s.finalize_time_stats(30000, 28800);
    assert_eq!(s.hold, 800);
    assert_eq!(s.prevent, 28700);
}

#[test]
fn leaderboard_top_n_skips_zeros_and_keeps_whole_rungs() {
    let mut b: Leaderboard<(String, String)> = Leaderboard::new();
    b.insert(5, ("m1".to_string(), "a".to_string()));
    b.insert(5, ("m2".to_string(), "b".to_string()));
    b.insert(3, ("m3".to_string(), "c".to_string()));
    b.insert(0, ("m4".to_string(), "d".to_string()));
    let top = b.get_top_n_with_status(2, true);
    assert_eq!(top.len(), 2);
    assert_eq!(top[0], ("m1".to_string(), "a".to_string(), 5, true));
    assert_eq!(top[1], ("m2".to_string(), "b".to_string(), 5, true));
    let top3 = b.get_top_n_with_status(3, false);
    assert_eq!(top3.len(), 3);
    assert_eq!(top3[2], ("m3".to_string(), "c".to_string(), 3, false));
}

#[test]
fn the_quick_return_counter_of_the_ranked_rule_set_stays_zero() {
    // The ranked rule set carries a quick-return column that no handler
    // feeds; it stays at zero through a whole dispatch run.
    let mut stats = fresh(1);
    let mut cap_diff: isize = 0;
    dispatch(&ev(100, Event::Grab, 0, Team::Red), &mut cap_diff, &mut stats);
    dispatch(&ev(150, Event::Return, 0, Team::Red), &mut cap_diff, &mut stats);
    dispatch(&ev(200, Event::Drop, 0, Team::Red), &mut cap_diff, &mut stats);
    assert_eq!(stats[0].quick_returns, 0);
}

#[test]
fn whole_game_boards_rank_from_both_ends() {
    let mut b: Leaderboard<String> = Leaderboard::new();
    b.insert(4, "m1".to_string());
    b.insert(0, "m2".to_string());
    b.insert(9, "m3".to_string());
    let top = CombinedGameRecordsCollector::get_top_n_games(&b, 5);
    assert_eq!(top, vec![("m3".to_string(), 9), ("m1".to_string(), 4)]);
    let bottom = CombinedGameRecordsCollector::get_bottom_n_games(&b, 2);
    assert_eq!(bottom, vec![("m2".to_string(), 0), ("m1".to_string(), 4)]);
}

#[test]
fn signed_team_board_ranks_differentials() {
    let mut b: SignedLeaderboard<(String, String)> = SignedLeaderboard::new();
    b.insert(-3, ("m1".to_string(), "a, b".to_string()));
    b.insert(7, ("m2".to_string(), "c, d".to_string()));
    let top = TeamRecordsCollector::get_top_n_teams_signed(&b, 5, true);
    assert_eq!(top.len(), 2);
    assert_eq!(top[0], ("m2".to_string(), "c, d".to_string(), 7, true));
    assert_eq!(top[1], ("m1".to_string(), "a, b".to_string(), -3, true));
}

#[test]
fn hold_differential_truncates_toward_zero() {
    let mut wins = ranked_stats::records::TeamLeaderboards::new();
    let mut losses = ranked_stats::records::TeamLeaderboards::new();
    let mut behind = PlayerGameStats::new();
    let mut ahead = PlayerGameStats::new();
    behind.hold = 0;
    ahead.hold = 100;
    // A team 100 ticks behind files under -1, not -2.
    TeamRecordsCollector::insert_team_stats(
        &mut wins,
        &mut losses,
        "m1".to_string(),
        "a, b".to_string(),
        &behind,
        &ahead,
        false,
    );
    let top = TeamRecordsCollector::get_top_n_teams_signed(&losses.hold_differential, 5, false);
    assert_eq!(top, vec![("m1".to_string(), "a, b".to_string(), -1, false)]);
}
