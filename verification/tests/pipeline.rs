use ranked_stats::analysis_types::{RelevantEvent, StatConfig};
use ranked_stats::config::parse_config;
use ranked_stats::event_processor::process_ranked_match;
use ranked_stats::events_reader::{Event, Team};
use ranked_stats::log_reader::{Player, PlayerLog};
use ranked_stats::numfmt::{isize_to_string, join_comma, usize_to_string};
use ranked_stats::ranked_analysis::RankedStatConfig;
use ranked_stats::records::{CombinedGameRecordsCollector, RecordsCollector, TeamRecordsCollector};
use ranked_stats::timeline::stable_sort_by_time;

fn eight_players() -> Vec<PlayerLog> {
    let mut players = Vec::new();
    for i in 0..8 {
        players.push(PlayerLog {
            name: format!("player{}", i),
            team: if i < 4 { 1 } else { 2 },
            events: Vec::new(),
        });
    }
    players
}

#[test]
fn ranked_match_with_full_rosters_is_analyzable() {
    let players = eight_players();
    let r = process_ranked_match::<RankedStatConfig>(
        "m1".to_string(),
        7,
        11,
        &players,
        10800,
    );
    let (result, names) = r.unwrap();
    assert_eq!(result.match_id, "m1".to_string());
    assert_eq!(result.timestamp, 7);
    assert_eq!(result.map_id, 11);
    assert_eq!(result.duration, 10800);
    assert_eq!(result.red_team, vec![0, 1, 2, 3]);
    assert_eq!(result.blue_team, vec![4, 5, 6, 7]);
    assert_eq!(result.player_stats.len(), 8);
    assert_eq!(names.len(), 8);
    assert_eq!(names[0], "player0".to_string());
}

#[test]
fn ranked_match_without_full_rosters_is_not_analyzable() {
    let mut players = eight_players();
    players[3].team = 2;
    let r = process_ranked_match::<RankedStatConfig>(
        "m1".to_string(),
        7,
        11,
        &players,
        10800,
    );
    assert!(r.is_none());
}

#[test]
fn ranked_match_below_minimum_length_is_skipped() {
    let players = eight_players();
    let r = process_ranked_match::<RankedStatConfig>(
        "m1".to_string(),
        7,
        11,
        &players,
        10799,
    );
    assert!(r.is_none());
}

#[test]
fn ranked_match_with_a_bad_team_code_is_skipped() {
    let mut players = eight_players();
    players[0].team = 9;
    let r = process_ranked_match::<RankedStatConfig>(
        "m1".to_string(),
        7,
        11,
        &players,
        10800,
    );
    assert!(r.is_none());
}

#[test]
fn records_collector_files_a_return_under_losses() {
    // One red player scores a single return; nobody captures, so every
    // player files under losses.
    let mut players = eight_players();
    players[0].events = vec![0b0010_0000, 0b0000_0000];
    let mut c = RecordsCollector::new();
    c.process_match("m9".to_string(), &players, 10800);
    let top = RecordsCollector::get_top_n_with_status(&c.full_losses.returns, 5, false);
    assert_eq!(top.len(), 1);
    assert_eq!(top[0], ("m9".to_string(), "player0".to_string(), 1, false));
    let wins = RecordsCollector::get_top_n_with_status(&c.full_wins.returns, 5, true);
    assert_eq!(wins.len(), 0);
}

#[test]
fn short_matches_leave_the_record_book_unchanged() {
    let players = eight_players();
    let mut c = RecordsCollector::new();
    c.process_match("m9".to_string(), &players, 100);
    let top = RecordsCollector::get_top_n_with_status(&c.full_all.caps, 5, true);
    assert_eq!(top.len(), 0);
}

#[test]
fn team_and_combined_collectors_accept_a_quiet_match() {
    let players = eight_players();
    let mut t = TeamRecordsCollector::new();
    t.process_match("t1".to_string(), &players, 10800);
    let mut g = CombinedGameRecordsCollector::new();
    g.process_match("g1".to_string(), &players, 10800);
}

#[test]
fn stable_sort_keeps_arrival_order_within_a_tick() {
    let events = vec![
        RelevantEvent { time: 5, event_type: Event::Tag, player_index: 0, team: Team::Red },
        RelevantEvent { time: 3, event_type: Event::Pop, player_index: 1, team: Team::Blue },
        RelevantEvent { time: 5, event_type: Event::Grab, player_index: 2, team: Team::Red },
    ];
    let sorted = stable_sort_by_time(&events);
    assert_eq!(sorted.len(), 3);
    assert_eq!(sorted[0].time, 3);
    assert_eq!(sorted[1].player_index, 0);
    assert_eq!(sorted[2].player_index, 2);
}

#[test]
fn numbers_render_in_decimal() {
    assert_eq!(usize_to_string(0), "0".to_string());
    assert_eq!(usize_to_string(907), "907".to_string());
    assert_eq!(isize_to_string(-45), "-45".to_string());
    assert_eq!(isize_to_string(12), "12".to_string());
}

#[test]
fn rows_join_with_commas() {
    let cells = vec!["a".to_string(), "b".to_string(), "c".to_string()];
    assert_eq!(join_comma(&cells), "a,b,c".to_string());
    let one = vec!["x".to_string()];
    assert_eq!(join_comma(&one), "x".to_string());
}

#[test]
fn csv_header_lists_identity_slots_and_stat_columns() {
    let header = RankedStatConfig::generate_csv_header();
    assert!(header.starts_with("match_id,map_id,timestamp,duration,cap_diff,garbage_time_cap_diff,r1,r2,r3,r4,b1,b2,b3,b4,r1_caps,"));
    assert!(header.ends_with("b4_sparkedouts"));
}

#[test]
fn config_defaults_apply_when_arguments_are_missing() {
    let c = parse_config(vec!["prog".to_string()]);
    assert_eq!(c.start_index, 280);
    assert_eq!(c.end_index, 281);
    assert_eq!(c.output_filename, "out_280_281".to_string());
}

#[test]
fn config_reads_explicit_arguments() {
    let c = parse_config(vec![
        "prog".to_string(),
        "report.txt".to_string(),
        "300".to_string(),
        "bad".to_string(),
    ]);
    assert_eq!(c.output_filename, "report.txt".to_string());
    assert_eq!(c.start_index, 300);
    assert_eq!(c.end_index, 281);
}

#[test]
fn player_log_conversion_decodes_the_event_string() {
    let p = Player {
        auth: true,
        name: "ace".to_string(),
        flair: 0,
        degree: 0,
        score: 0,
        points: 0,
        team: 1,
        events: "AA==".to_string(),
    };
    let pl = p.to_player_log().unwrap();
    assert_eq!(pl.name, "ace".to_string());
    assert_eq!(pl.team, 1);
    assert_eq!(pl.events, vec![0u8]);
    let bad = Player { events: "???".to_string(), ..p };
    assert!(bad.to_player_log().is_none());
}

#[test]
fn ranked_match_runs_the_pattern_pass() {
    // Player 0 starts and stops preventing across two ticks with no
    // teammate grab between, so the pass credits one tick of goodprevent.
    let mut players = eight_players();
    players[0].events = vec![0x01, 0x00, 0x01, 0x00];
    let r = process_ranked_match::<RankedStatConfig>(
        "m1".to_string(),
        7,
        11,
        &players,
        10800,
    );
    let (result, _) = r.unwrap();
    assert_eq!(result.player_stats[0].prevent, 1);
    assert_eq!(result.player_stats[0].goodprevent, 1);
    assert_eq!(result.cap_diff, 0);
}

#[test]
fn csv_row_joins_identity_names_and_stats() {
    let players = eight_players();
    let r = process_ranked_match::<RankedStatConfig>(
        "m1".to_string(),
        7,
        11,
        &players,
        10800,
    );
    let (result, names) = r.unwrap();
    let row = result.to_csv_row::<RankedStatConfig>(&names);
    assert!(row.starts_with("m1,11,7,10800,0,0,\"player0\",\"player1\""));
    assert!(row.ends_with(",0,0,0,0,0,0,0,0,0,0,0,0,0,0"));
}

#[test]
fn config_parses_signs_and_rejects_stray_text() {
    let c = parse_config(vec![
        "prog".to_string(),
        "out.txt".to_string(),
        "+12".to_string(),
        "-7".to_string(),
    ]);
    assert_eq!(c.start_index, 12);
    assert_eq!(c.end_index, -7);
    let d = parse_config(vec![
        "prog".to_string(),
        "out.txt".to_string(),
        "-".to_string(),
        "1 2".to_string(),
    ]);
    assert_eq!(d.start_index, 280);
    assert_eq!(d.end_index, 281);
}
