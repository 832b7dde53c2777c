use vstd::prelude::*;

verus! {

use crate::events_reader::{Event, Team, PlayerEvent, EventsReader, clone_bytes};
use crate::analysis_types::{RelevantEvent, MatchResult, StatConfig};
use crate::decode::spec_player_events;
use crate::log_reader::{PlayerLog, team_of_code, spec_team_of_code};
use crate::records::{MINIMUM_RANKED_MATCH_LENGTH, MAX_TIMELINE_EVENTS, spec_cap_diff};
use crate::ranked_analysis::{RankedPlayerStats, RankedStatConfig, spec_is_garbage_time, spec_ranked_step};
use crate::timeline::{spec_sorted_by_time, spec_stable_sort_by_time, stable_sort_by_time};

/// One player's decoded events turned into fused-timeline entries with the
/// per-event team, keeping only the kinds one rule set consumes.
pub open spec fn spec_push_relevant<C: StatConfig>(
    acc: Seq<RelevantEvent>,
    events: Seq<PlayerEvent>,
    j: int,
    idx: usize,
) -> Seq<RelevantEvent>
    decreases events.len() - j,
{
    if j < 0 || j >= events.len() {
        acc
    } else {
        let e = events[j];
        let acc2 = if C::spec_relevant(e.event_type) {
            acc.push(
                RelevantEvent {
                    time: e.time,
                    event_type: e.event_type,
                    player_index: idx,
                    team: e.team,
                },
            )
        } else {
            acc
        };
        spec_push_relevant::<C>(acc2, events, j + 1, idx)
    }
}

/// Every player's consumed events collected into one unsorted list.
pub open spec fn spec_collect_relevant<C: StatConfig>(
    acc: Seq<RelevantEvent>,
    players: Seq<PlayerLog>,
    i: int,
    duration: usize,
) -> Seq<RelevantEvent>
    decreases players.len() - i,
{
    if i < 0 || i >= players.len() {
        acc
    } else {
        let evs = spec_player_events(
            players[i].events@,
            spec_team_of_code(players[i].team),
            duration,
        );
        spec_collect_relevant::<C>(
            spec_push_relevant::<C>(acc, evs, 0, i as usize),
            players,
            i + 1,
            duration,
        )
    }
}

/// A roster with every entry equal to `x` removed, in order.
pub open spec fn spec_remove_index(acc: Seq<usize>, s: Seq<usize>, j: int, x: usize) -> Seq<usize>
    decreases s.len() - j,
{
    if j < 0 || j >= s.len() {
        acc
    } else {
        let acc2 = if s[j] == x {
            acc
        } else {
            acc.push(s[j])
        };
        spec_remove_index(acc2, s, j + 1, x)
    }
}

/// What one fused event does to the two rosters: a join adds a player not
/// yet rostered to their new team; a quit early enough in the match (more
/// than a minimum match length before the end) removes them.
pub open spec fn spec_roster_step(
    red: Seq<usize>,
    blue: Seq<usize>,
    e: RelevantEvent,
    duration: usize,
) -> (Seq<usize>, Seq<usize>) {
    if e.event_type == Event::Join {
        if !red.contains(e.player_index) && !blue.contains(e.player_index) {
            if e.team == Team::Red {
                (red.push(e.player_index), blue)
            } else if e.team == Team::Blue {
                (red, blue.push(e.player_index))
            } else {
                (red, blue)
            }
        } else {
            (red, blue)
        }
    } else if e.event_type == Event::Quit {
        if e.time < duration - MINIMUM_RANKED_MATCH_LENGTH {
            if e.team == Team::Red {
                (spec_remove_index(Seq::empty(), red, 0, e.player_index), blue)
            } else if e.team == Team::Blue {
                (red, spec_remove_index(Seq::empty(), blue, 0, e.player_index))
            } else {
                (red, blue)
            }
        } else {
            (red, blue)
        }
    } else {
        (red, blue)
    }
}

/// The rosters after the whole fused timeline is replayed from event `i`.
pub open spec fn spec_roster_fold(
    red: Seq<usize>,
    blue: Seq<usize>,
    events: Seq<RelevantEvent>,
    i: int,
    duration: usize,
) -> (Seq<usize>, Seq<usize>)
    decreases events.len() - i,
{
    if i < 0 || i >= events.len() {
        (red, blue)
    } else {
        let (r2, b2) = spec_roster_step(red, blue, events[i], duration);
        spec_roster_fold(r2, b2, events, i + 1, duration)
    }
}

/// The whole fused timeline dispatched through a rule set's step, from
/// event `i` on: the two differentials and the records it leaves.
pub open spec fn spec_engine_fold<C: StatConfig>(
    events: Seq<RelevantEvent>,
    i: int,
    cap_diff: int,
    garbage_time_cap_diff: int,
    red_fc: Option<usize>,
    blue_fc: Option<usize>,
    red_grab_time: Option<usize>,
    blue_grab_time: Option<usize>,
    stats: Seq<C::Stats>,
) -> (int, int, Seq<C::Stats>)
    decreases events.len() - i,
{
    if 0 <= i < events.len() {
        let r = C::spec_step(
            events[i],
            cap_diff,
            garbage_time_cap_diff,
            red_fc,
            blue_fc,
            red_grab_time,
            blue_grab_time,
            stats,
        );
        spec_engine_fold::<C>(events, i + 1, r.0, r.1, r.2, r.3, r.4, r.5, r.6)
    } else {
        (cap_diff, garbage_time_cap_diff, stats)
    }
}

/// The engine fold of a whole timeline from zeroed differentials, no
/// carrier on either side, and the given starting records.
pub open spec fn spec_engine_outcome<C: StatConfig>(
    events: Seq<RelevantEvent>,
    init: Seq<C::Stats>,
) -> (int, int, Seq<C::Stats>) {
    spec_engine_fold::<C>(events, 0, 0, 0, None, None, None, None, init)
}

/// One event's effect on the two differentials alone, under the ranked
/// rules: only a capture moves them.
pub open spec fn spec_diffs_step(e: RelevantEvent, cap_diff: int, garbage_time_cap_diff: int) -> (
    int,
    int,
) {
    if e.event_type == Event::Capture {
        let garbage = spec_is_garbage_time(e.time, cap_diff);
        let cd2 = if e.team == Team::Red {
            cap_diff + 1
        } else if e.team == Team::Blue {
            cap_diff - 1
        } else {
            cap_diff
        };
        let scored = (e.team == Team::Red && garbage && cd2 > 0) || (e.team == Team::Blue
            && garbage && cd2 < 0);
        (
            cd2,
            if e.team == Team::Red && scored {
                garbage_time_cap_diff + 1
            } else if e.team == Team::Blue && scored {
                garbage_time_cap_diff - 1
            } else {
                garbage_time_cap_diff
            },
        )
    } else {
        (cap_diff, garbage_time_cap_diff)
    }
}

/// The two differentials of a whole timeline under the ranked rules, a
/// function of the events alone.
pub open spec fn spec_ranked_diffs(
    events: Seq<RelevantEvent>,
    i: int,
    cap_diff: int,
    garbage_time_cap_diff: int,
) -> (int, int)
    decreases events.len() - i,
{
    if 0 <= i < events.len() {
        let d = spec_diffs_step(events[i], cap_diff, garbage_time_cap_diff);
        spec_ranked_diffs(events, i + 1, d.0, d.1)
    } else {
        (cap_diff, garbage_time_cap_diff)
    }
}

/// Under the ranked rule set the engine fold's differentials depend on
/// the timeline alone, whatever records and carrier slots it starts
/// from, and its capture differential ends at the red-minus-blue capture
/// count of the remaining events.
pub proof fn lemma_ranked_fold_diffs(
    events: Seq<RelevantEvent>,
    i: int,
    cap_diff: int,
    garbage_time_cap_diff: int,
    red_fc: Option<usize>,
    blue_fc: Option<usize>,
    red_grab_time: Option<usize>,
    blue_grab_time: Option<usize>,
    stats: Seq<RankedPlayerStats>,
)
    requires
        0 <= i <= events.len(),
    ensures
        ({
            let f = spec_engine_fold::<RankedStatConfig>(
                events,
                i,
                cap_diff,
                garbage_time_cap_diff,
                red_fc,
                blue_fc,
                red_grab_time,
                blue_grab_time,
                stats,
            );
            let d = spec_ranked_diffs(events, i, cap_diff, garbage_time_cap_diff);
            f.0 == d.0 && f.1 == d.1 && f.0 == cap_diff + spec_cap_diff(
                events,
                events.len() as int,
            ) - spec_cap_diff(events, i)
        }),
    decreases events.len() - i,
{
    if i < events.len() {
        let r = spec_ranked_step(
            events[i],
            cap_diff,
            garbage_time_cap_diff,
            red_fc,
            blue_fc,
            red_grab_time,
            blue_grab_time,
            stats,
        );
        let d = spec_diffs_step(events[i], cap_diff, garbage_time_cap_diff);
        assert(r.0 == d.0 && r.1 == d.1);
        assert(spec_cap_diff(events, i + 1) == spec_cap_diff(events, i) + (r.0 - cap_diff));
        lemma_ranked_fold_diffs(
            events,
            i + 1,
            r.0,
            r.1,
            r.2,
            r.3,
            r.4,
            r.5,
            r.6,
        );
    }
}

/// Under the ranked rule set no dispatched event ever feeds the
/// quick-return counter: whatever the timeline, every record leaves the
/// engine fold with the quick-return count it entered with. (The column
/// is a preserved, never-incremented stub.)
pub proof fn lemma_ranked_fold_quick_returns(
    events: Seq<RelevantEvent>,
    i: int,
    cap_diff: int,
    garbage_time_cap_diff: int,
    red_fc: Option<usize>,
    blue_fc: Option<usize>,
    red_grab_time: Option<usize>,
    blue_grab_time: Option<usize>,
    stats: Seq<RankedPlayerStats>,
)
    requires
        0 <= i <= events.len(),
        forall|k: int|
            0 <= k < events.len() ==> (#[trigger] events[k]).player_index < stats.len(),
    ensures
        ({
            let f = spec_engine_fold::<RankedStatConfig>(
                events,
                i,
                cap_diff,
                garbage_time_cap_diff,
                red_fc,
                blue_fc,
                red_grab_time,
                blue_grab_time,
                stats,
            );
            f.2.len() == stats.len() && forall|p: int|
                0 <= p < stats.len() ==> (#[trigger] f.2[p]).quick_returns
                    == stats[p].quick_returns
        }),
    decreases events.len() - i,
{
    if i < events.len() {
        let r = spec_ranked_step(
            events[i],
            cap_diff,
            garbage_time_cap_diff,
            red_fc,
            blue_fc,
            red_grab_time,
            blue_grab_time,
            stats,
        );
        assert(r.6.len() == stats.len() && forall|p: int|
            0 <= p < stats.len() ==> (#[trigger] r.6[p]).quick_returns
                == stats[p].quick_returns);
        lemma_ranked_fold_quick_returns(
            events,
            i + 1,
            r.0,
            r.1,
            r.2,
            r.3,
            r.4,
            r.5,
            r.6,
        );
    }
}

/// The indices of the players whose starting team carries one code, in
/// player order.
pub open spec fn spec_starting_roster(
    acc: Seq<usize>,
    players: Seq<PlayerLog>,
    i: int,
    code: usize,
) -> Seq<usize>
    decreases players.len() - i,
{
    if i < 0 || i >= players.len() {
        acc
    } else {
        let acc2 = if players[i].team == code {
            acc.push(i as usize)
        } else {
            acc
        };
        spec_starting_roster(acc2, players, i + 1, code)
    }
}

/// Appends one player's consumed events to the unsorted event list, as
/// `spec_push_relevant` describes.
fn push_relevant_events<C: StatConfig>(acc: &mut Vec<RelevantEvent>, evs: &Vec<PlayerEvent>, idx: usize)
    ensures
        final(acc)@ == spec_push_relevant::<C>(old(acc)@, evs@, 0, idx),
        old(acc)@.len() <= final(acc)@.len(),
        forall|k: int| 0 <= k < old(acc)@.len() ==> (#[trigger] final(acc)@[k]) == old(acc)@[k],
        forall|k: int|
            old(acc)@.len() <= k < final(acc)@.len() ==> (#[trigger] final(acc)@[k]).player_index
                == idx,
{
    let mut j: usize = 0;
    while j < evs.len()
        invariant
            j <= evs@.len(),
            spec_push_relevant::<C>(acc@, evs@, j as int, idx) == spec_push_relevant::<C>(
                old(acc)@,
                evs@,
                0,
                idx,
            ),
            old(acc)@.len() <= acc@.len(),
            forall|k: int| 0 <= k < old(acc)@.len() ==> (#[trigger] acc@[k]) == old(acc)@[k],
            forall|k: int|
                old(acc)@.len() <= k < acc@.len() ==> (#[trigger] acc@[k]).player_index == idx,
        decreases evs@.len() - j,
    {
        let e = evs[j];
        if C::is_relevant(e.event_type) {
            acc.push(
                RelevantEvent {
                    time: e.time,
                    event_type: e.event_type,
                    player_index: idx,
                    team: e.team,
                },
            );
        }
        j = j + 1;
    }
}

/// Removes every roster entry equal to `x`, as `spec_remove_index`
/// describes.
fn remove_index(v: &mut Vec<usize>, x: usize)
    ensures
        final(v)@ == spec_remove_index(Seq::empty(), old(v)@, 0, x),
{
    let mut out: Vec<usize> = Vec::new();
    let mut j: usize = 0;
    while j < v.len()
        invariant
            j <= v@.len(),
            spec_remove_index(out@, v@, j as int, x) == spec_remove_index(
                Seq::empty(),
                v@,
                0,
                x,
            ),
        decreases v@.len() - j,
    {
        if v[j] != x {
            out.push(v[j]);
        }
        j = j + 1;
    }
    *v = out;
}

/// Does the roster hold `x`?
fn roster_contains(v: &Vec<usize>, x: usize) -> (r: bool)
    ensures
        r == v@.contains(x),
{
    crate::ranked_analysis::contains_index(v, x)
}

/// Replays one match under a pluggable rule set: decodes every player,
/// fuses the consumed events into the sorted timeline, maintains the two
/// rosters while dispatching every event through the rule set's step, runs
/// the rule set's whole-timeline pass where its bounds allow, and hands
/// back the result exactly when both rosters end with four players. The
/// fused timeline and the rosters are pinned exactly; the differentials
/// and records equal the engine fold of the rule set's step over that
/// timeline (followed by its pass), from fresh records.
#[verifier::rlimit(100)]
pub fn process_ranked_match<C: StatConfig>(
    match_id: String,
    timestamp: usize,
    map_id: usize,
    players: &Vec<PlayerLog>,
    duration: usize,
) -> (r: Option<(MatchResult<C::Stats>, Vec<String>)>)
    requires
        forall|p: int|
            0 <= p < players@.len() ==> 8 * (#[trigger] players@[p]).events@.len() <= usize::MAX,
        C::stat_cap() >= 2 * (MAX_TIMELINE_EVENTS as int) + 2,
    ensures
        ({
            let all = spec_stable_sort_by_time(
                spec_collect_relevant::<C>(Seq::empty(), players@, 0, duration),
            );
            let red0 = spec_starting_roster(Seq::empty(), players@, 0, 1);
            let blue0 = spec_starting_roster(Seq::empty(), players@, 0, 2);
            let (red, blue) = spec_roster_fold(red0, blue0, all, 0, duration);
            let eligible = players@.len() >= 8 && duration >= MINIMUM_RANKED_MATCH_LENGTH && (
            forall|p: int| 0 <= p < players@.len() ==> (#[trigger] players@[p]).team <= 2)
                && all.len() <= MAX_TIMELINE_EVENTS;
            if eligible && red.len() == 4 && blue.len() == 4 {
                r matches Some(pair) && pair.0.match_id == match_id && pair.0.timestamp
                    == timestamp && pair.0.map_id == map_id && pair.0.duration == duration
                    && pair.0.red_team@ == red && pair.0.blue_team@ == blue
                    && pair.0.player_stats@.len() == players@.len() && pair.1@.len()
                    == players@.len() && (forall|p: int|
                    0 <= p < players@.len() ==> (#[trigger] pair.1@[p]) == players@[p].name) && (
                exists|init: Seq<C::Stats>|
                    #![trigger spec_engine_outcome::<C>(all, init)]
                    init.len() == players@.len() && (forall|p: int|
                        0 <= p < init.len() ==> C::stat_is_new(#[trigger] init[p])) && ({
                        let f = spec_engine_outcome::<C>(all, init);
                        pair.0.cap_diff as int == f.0 && pair.0.garbage_time_cap_diff as int == f.1
                            && pair.0.player_stats@ == (if C::post_ready(f.2, all) {
                            C::spec_post(f.2, all, red, blue)
                        } else {
                            f.2
                        })
                    }))
            } else {
                r is None
            }
        }),
{
    if players.len() < 8 {
        return None;
    }
    if duration < MINIMUM_RANKED_MATCH_LENGTH {
        return None;
    }
    let mut q: usize = 0;
    while q < players.len()
        invariant
            q <= players@.len(),
            forall|p: int| 0 <= p < q ==> (#[trigger] players@[p]).team <= 2,
        decreases players@.len() - q,
    {
        if players[q].team > 2 {
            return None;
        }
        q = q + 1;
    }
    let mut raw: Vec<RelevantEvent> = Vec::new();
    let mut i: usize = 0;
    while i < players.len()
        invariant
            i <= players@.len(),
            forall|p: int|
                0 <= p < players@.len() ==> 8 * (#[trigger] players@[p]).events@.len()
                    <= usize::MAX,
            spec_collect_relevant::<C>(raw@, players@, i as int, duration)
                == spec_collect_relevant::<C>(Seq::empty(), players@, 0, duration),
            forall|k: int| 0 <= k < raw@.len() ==> (#[trigger] raw@[k]).player_index < players@.len(),
        decreases players@.len() - i,
    {
        let team = team_of_code(players[i].team);
        let mut reader = EventsReader::new(clone_bytes(&players[i].events));
        let evs = reader.player_events(team, duration);
        push_relevant_events::<C>(&mut raw, &evs, i);
        i = i + 1;
    }
    let all = stable_sort_by_time(&raw);
    proof {
        crate::timeline::lemma_sort_bounds(raw@, players.len(), usize::MAX);
    }
    if all.len() > MAX_TIMELINE_EVENTS {
        return None;
    }
    let mut red_team: Vec<usize> = Vec::new();
    let mut blue_team: Vec<usize> = Vec::new();
    let mut p: usize = 0;
    while p < players.len()
        invariant
            p <= players@.len(),
            spec_starting_roster(red_team@, players@, p as int, 1) == spec_starting_roster(
                Seq::empty(),
                players@,
                0,
                1,
            ),
            spec_starting_roster(blue_team@, players@, p as int, 2) == spec_starting_roster(
                Seq::empty(),
                players@,
                0,
                2,
            ),
        decreases players@.len() - p,
    {
        if players[p].team == 1 {
            red_team.push(p);
        }
        if players[p].team == 2 {
            blue_team.push(p);
        }
        p = p + 1;
    }
    let mut player_stats: Vec<C::Stats> = Vec::new();
    let mut s: usize = 0;
    while s < players.len()
        invariant
            s <= players@.len(),
            player_stats@.len() == s,
            forall|k: int|
                0 <= k < s ==> (forall|t: usize| C::stat_inv(#[trigger] player_stats@[k], t))
                    && C::stat_level(player_stats@[k]) == 0 && C::stat_is_new(player_stats@[k]),
        decreases players@.len() - s,
    {
        player_stats.push(C::new_stats());
        s = s + 1;
    }
    let ghost init0 = player_stats@;
    let mut cap_diff: isize = 0;
    let mut garbage_time_cap_diff: isize = 0;
    let mut red_fc: Option<usize> = None;
    let mut blue_fc: Option<usize> = None;
    let mut red_grab_time: Option<usize> = None;
    let mut blue_grab_time: Option<usize> = None;
    let ghost red0 = red_team@;
    let ghost blue0 = blue_team@;
    let mut e: usize = 0;
    while e < all.len()
        invariant
            e <= all@.len(),
            all@.len() <= MAX_TIMELINE_EVENTS,
            spec_sorted_by_time(all@),
            forall|k: int| 0 <= k < all@.len() ==> (#[trigger] all@[k]).player_index < players@.len(),
            player_stats@.len() == players@.len(),
            spec_roster_fold(red_team@, blue_team@, all@, e as int, duration) == spec_roster_fold(
                red0,
                blue0,
                all@,
                0,
                duration,
            ),
            spec_engine_fold::<C>(
                all@,
                e as int,
                cap_diff as int,
                garbage_time_cap_diff as int,
                red_fc,
                blue_fc,
                red_grab_time,
                blue_grab_time,
                player_stats@,
            ) == spec_engine_outcome::<C>(all@, init0),
            duration >= MINIMUM_RANKED_MATCH_LENGTH,
            C::stat_cap() >= 2 * (MAX_TIMELINE_EVENTS as int) + 2,
            -(e as int) <= cap_diff as int <= e as int,
            -(e as int) <= garbage_time_cap_diff as int <= e as int,
            forall|k: int|
                0 <= k < players@.len() ==> C::stat_inv(
                    #[trigger] player_stats@[k],
                    if e == 0 {
                        0
                    } else {
                        all@[e - 1].time
                    },
                ),
            forall|k: int|
                0 <= k < players@.len() ==> C::stat_level(#[trigger] player_stats@[k]) <= 2 * (
                e as int),
        decreases all@.len() - e,
    {
        let ev = all[e];
        proof {
            let tf: usize = if e == 0 {
                0
            } else {
                all@[e as int - 1].time
            };
            assert(tf <= ev.time);
            assert forall|k: int| 0 <= k < players@.len() implies C::stat_inv(
                #[trigger] player_stats@[k],
                ev.time,
            ) by {
                C::stat_inv_widen(player_stats@[k], tf, ev.time);
            }
        }
        if matches!(ev.event_type, Event::Join) {
            if !roster_contains(&red_team, ev.player_index) && !roster_contains(
                &blue_team,
                ev.player_index,
            ) {
                match ev.team {
                    Team::Red => {
                        red_team.push(ev.player_index);
                    },
                    Team::Blue => {
                        blue_team.push(ev.player_index);
                    },
                    _ => {},
                }
            }
        } else if matches!(ev.event_type, Event::Quit) {
            if ev.time < duration - MINIMUM_RANKED_MATCH_LENGTH {
                match ev.team {
                    Team::Red => {
                        remove_index(&mut red_team, ev.player_index);
                    },
                    Team::Blue => {
                        remove_index(&mut blue_team, ev.player_index);
                    },
                    _ => {},
                }
            }
        }
        C::process_event(
            &ev,
            &mut cap_diff,
            &mut garbage_time_cap_diff,
            duration,
            &mut red_fc,
            &mut blue_fc,
            &mut red_grab_time,
            &mut blue_grab_time,
            &mut player_stats,
        );
        e = e + 1;
    }
    let ghost folded = player_stats@;
    proof {
        assert(spec_engine_outcome::<C>(all@, init0) == (
            cap_diff as int,
            garbage_time_cap_diff as int,
            folded,
        ));
    }
    if red_team.len() == 4 && blue_team.len() == 4 {
        if C::check_post_ready(&all, &player_stats) {
            C::post_process_stats(&all, &mut player_stats, &red_team, &blue_team);
        }
        let mut player_names: Vec<String> = Vec::new();
        let mut k: usize = 0;
        while k < players.len()
            invariant
                k <= players@.len(),
                player_names@.len() == k,
                forall|m: int| 0 <= m < k ==> (#[trigger] player_names@[m]) == players@[m].name,
            decreases players@.len() - k,
        {
            player_names.push(players[k].name.clone());
            k = k + 1;
        }
        proof {
            let f = spec_engine_outcome::<C>(all@, init0);
            assert(init0.len() == players@.len());
            assert(forall|p: int| 0 <= p < init0.len() ==> C::stat_is_new(#[trigger] init0[p]));
            assert(cap_diff as int == f.0 && garbage_time_cap_diff as int == f.1
                && player_stats@ == (if C::post_ready(f.2, all@) {
                C::spec_post(f.2, all@, red_team@, blue_team@)
            } else {
                f.2
            }));
        }
        let result = MatchResult {
            match_id,
            timestamp,
            map_id,
            duration,
            cap_diff,
            garbage_time_cap_diff,
            red_team,
            blue_team,
            player_stats,
        };
        Some((result, player_names))
    } else {
        None
    }
}

} // verus!
