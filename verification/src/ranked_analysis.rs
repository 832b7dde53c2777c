use vstd::prelude::*;

verus! {

use crate::events_reader::{Event, Team};
use crate::analysis_types::RelevantEvent;
use vstd::string::StringExecFns;

/// One player's ranked-rule-set record: plain counters, time
/// accumulations, and the open-interval bookkeeping they need.
#[derive(Debug, Clone)]
pub struct RankedPlayerStats {
    pub name: String,
    pub auth: usize,
    pub caps: usize,
    pub garbage_time_caps: usize,
    pub hold_start: Option<usize>,
    pub hold: usize,
    pub ndps: usize,
    pub returns: usize,
    pub quick_returns: usize,
    pub nrts: usize,
    pub pups: usize,
    pub keypops: usize,
    pub handoffs: usize,
    pub goodprevent: usize,
    pub resets: usize,
    pub badflaccids: usize,
    pub sparkedouts: usize,
    pub prevent_start: Option<usize>,
    pub prevent: usize,
}

impl RankedPlayerStats {
    /// A fresh record: an empty name, every counter zero, no open
    /// interval.
    pub open spec fn is_fresh(self) -> bool {
        self.name@ == Seq::<char>::empty() && self.auth == 0 && self.caps == 0
            && self.garbage_time_caps == 0 && self.hold_start is None && self.hold == 0
            && self.ndps == 0 && self.returns == 0 && self.quick_returns == 0 && self.nrts == 0
            && self.pups == 0 && self.keypops == 0 && self.handoffs == 0 && self.goodprevent == 0
            && self.resets == 0 && self.badflaccids == 0 && self.sparkedouts == 0
            && self.prevent_start is None && self.prevent == 0
    }

    /// A fresh record.
    pub fn new() -> (r: RankedPlayerStats)
        ensures
            r.is_fresh(),
    {
        RankedPlayerStats {
            name: String::new(),
            auth: 0,
            caps: 0,
            garbage_time_caps: 0,
            hold_start: None,
            hold: 0,
            ndps: 0,
            returns: 0,
            quick_returns: 0,
            nrts: 0,
            pups: 0,
            keypops: 0,
            handoffs: 0,
            goodprevent: 0,
            resets: 0,
            badflaccids: 0,
            sparkedouts: 0,
            prevent_start: None,
            prevent: 0,
        }
    }

    /// The record as it stands when the timeline has been replayed up to
    /// tick `t`: open intervals started at or before `t`, accumulations
    /// bounded so no close can overflow.
    pub open spec fn time_ok(self, t: usize) -> bool {
        &&& (match self.hold_start {
            Some(s) => s <= t && self.hold <= s,
            None => self.hold <= t,
        })
        &&& (match self.prevent_start {
            Some(s) => s <= t && self.prevent <= s,
            None => self.prevent <= t,
        })
    }

    /// Every dispatch counter is at most `b`.
    pub open spec fn counters_below(self, b: int) -> bool {
        self.caps <= b && self.garbage_time_caps <= b && self.ndps <= b && self.returns <= b
            && self.quick_returns <= b && self.nrts <= b && self.pups <= b
    }

    /// The counting room the dispatch counters have used together.
    pub open spec fn level(self) -> int {
        self.caps + self.garbage_time_caps + self.ndps + self.returns + self.quick_returns
            + self.nrts + self.pups
    }
}

/// Whether a capture at this tick, against this pre-capture differential,
/// falls in garbage time: the later the match stands, the smaller the
/// runaway differential that makes further captures low-impact.
pub open spec fn spec_is_garbage_time(time: usize, cap_diff: int) -> bool {
    (time > 330 * 60 && (cap_diff >= 4 || cap_diff <= -4)) || (time > 360 * 60 && (cap_diff >= 3
        || cap_diff <= -3)) || (time > 390 * 60 && (cap_diff >= 2 || cap_diff <= -2))
}

/// What one fused event does under the ranked rule set: the acting
/// player's record, the two differentials, and the per-team flag-carrier
/// bookkeeping.
pub open spec fn spec_ranked_step(
    ev: RelevantEvent,
    cap_diff: int,
    garbage_diff: int,
    red_fc: Option<usize>,
    blue_fc: Option<usize>,
    red_grab_time: Option<usize>,
    blue_grab_time: Option<usize>,
    stats: Seq<RankedPlayerStats>,
) -> (int, int, Option<usize>, Option<usize>, Option<usize>, Option<usize>, Seq<RankedPlayerStats>) {
    let idx = ev.player_index as int;
    let s = stats[idx];
    match ev.event_type {
        Event::Capture => {
            let garbage = spec_is_garbage_time(ev.time, cap_diff);
            let cd2 = if ev.team == Team::Red {
                cap_diff + 1
            } else if ev.team == Team::Blue {
                cap_diff - 1
            } else {
                cap_diff
            };
            let scored = (ev.team == Team::Red && garbage && cd2 > 0) || (ev.team == Team::Blue
                && garbage && cd2 < 0);
            let g2 = if ev.team == Team::Red && scored {
                garbage_diff + 1
            } else if ev.team == Team::Blue && scored {
                garbage_diff - 1
            } else {
                garbage_diff
            };
            let s1 = if scored {
                RankedPlayerStats { garbage_time_caps: (s.garbage_time_caps + 1) as usize, ..s }
            } else {
                s
            };
            let s2 = RankedPlayerStats { caps: (s1.caps + 1) as usize, hold_start: None, ..s1 };
            (
                cd2,
                g2,
                if ev.team == Team::Red {
                    None
                } else {
                    red_fc
                },
                if ev.team == Team::Blue {
                    None
                } else {
                    blue_fc
                },
                if ev.team == Team::Red {
                    None
                } else {
                    red_grab_time
                },
                if ev.team == Team::Blue {
                    None
                } else {
                    blue_grab_time
                },
                stats.update(idx, s2),
            )
        },
        Event::Grab => {
            let s1 = RankedPlayerStats { hold_start: Some(ev.time), ..s };
            (
                cap_diff,
                garbage_diff,
                if ev.team == Team::Red {
                    Some(ev.player_index)
                } else {
                    red_fc
                },
                if ev.team == Team::Blue {
                    Some(ev.player_index)
                } else {
                    blue_fc
                },
                if ev.team == Team::Red {
                    Some(ev.time)
                } else {
                    red_grab_time
                },
                if ev.team == Team::Blue {
                    Some(ev.time)
                } else {
                    blue_grab_time
                },
                stats.update(idx, s1),
            )
        },
        Event::Drop => {
            let s1 = match s.hold_start {
                Some(hs) => RankedPlayerStats {
                    hold: (s.hold + (ev.time - hs)) as usize,
                    hold_start: None,
                    ..s
                },
                None => s,
            };
            (
                cap_diff,
                garbage_diff,
                if ev.team == Team::Red {
                    None
                } else {
                    red_fc
                },
                if ev.team == Team::Blue {
                    None
                } else {
                    blue_fc
                },
                if ev.team == Team::Red {
                    None
                } else {
                    red_grab_time
                },
                if ev.team == Team::Blue {
                    None
                } else {
                    blue_grab_time
                },
                stats.update(idx, s1),
            )
        },
        Event::Return => (
            cap_diff,
            garbage_diff,
            red_fc,
            blue_fc,
            red_grab_time,
            blue_grab_time,
            stats.update(idx, RankedPlayerStats { returns: (s.returns + 1) as usize, ..s }),
        ),
        Event::Tag => (
            cap_diff,
            garbage_diff,
            red_fc,
            blue_fc,
            red_grab_time,
            blue_grab_time,
            stats.update(idx, RankedPlayerStats { nrts: (s.nrts + 1) as usize, ..s }),
        ),
        Event::Pop => (
            cap_diff,
            garbage_diff,
            red_fc,
            blue_fc,
            red_grab_time,
            blue_grab_time,
            stats.update(idx, RankedPlayerStats { ndps: (s.ndps + 1) as usize, ..s }),
        ),
        Event::Powerup => (
            cap_diff,
            garbage_diff,
            red_fc,
            blue_fc,
            red_grab_time,
            blue_grab_time,
            stats.update(idx, RankedPlayerStats { pups: (s.pups + 1) as usize, ..s }),
        ),
        Event::DuplicatePowerup => (
            cap_diff,
            garbage_diff,
            red_fc,
            blue_fc,
            red_grab_time,
            blue_grab_time,
            stats.update(idx, RankedPlayerStats { pups: (s.pups + 1) as usize, ..s }),
        ),
        Event::StartPrevent => (
            cap_diff,
            garbage_diff,
            red_fc,
            blue_fc,
            red_grab_time,
            blue_grab_time,
            stats.update(idx, RankedPlayerStats { prevent_start: Some(ev.time), ..s }),
        ),
        Event::StopPrevent => {
            let s1 = match s.prevent_start {
                Some(ps) => RankedPlayerStats {
                    prevent: (s.prevent + (ev.time - ps)) as usize,
                    prevent_start: None,
                    ..s
                },
                None => s,
            };
            (cap_diff, garbage_diff, red_fc, blue_fc, red_grab_time, blue_grab_time, stats.update(idx, s1))
        },
        Event::Quit => {
            let s1 = match s.hold_start {
                Some(hs) => RankedPlayerStats {
                    hold: (s.hold + (ev.time - hs)) as usize,
                    hold_start: None,
                    ..s
                },
                None => s,
            };
            let s2 = RankedPlayerStats { ndps: (s1.ndps + 1) as usize, ..s1 };
            (cap_diff, garbage_diff, red_fc, blue_fc, red_grab_time, blue_grab_time, stats.update(idx, s2))
        },
        _ => (cap_diff, garbage_diff, red_fc, blue_fc, red_grab_time, blue_grab_time, stats),
    }
}

/// One ranked step keeps the record valid at the event's tick, moves each
/// counter by at most one, and uses at most two steps of counting room.
pub proof fn lemma_ranked_step_props(
    ev: RelevantEvent,
    cap_diff: int,
    garbage_diff: int,
    red_fc: Option<usize>,
    blue_fc: Option<usize>,
    red_grab_time: Option<usize>,
    blue_grab_time: Option<usize>,
    stats: Seq<RankedPlayerStats>,
    b: int,
)
    requires
        0 <= ev.player_index < stats.len(),
        stats[ev.player_index as int].time_ok(ev.time),
        stats[ev.player_index as int].counters_below(b),
        b + 1 <= usize::MAX,
    ensures
        ({
            let r = spec_ranked_step(
                ev,
                cap_diff,
                garbage_diff,
                red_fc,
                blue_fc,
                red_grab_time,
                blue_grab_time,
                stats,
            );
            r.6.len() == stats.len() && r.6[ev.player_index as int].time_ok(ev.time)
                && r.6[ev.player_index as int].counters_below(b + 1) && RankedPlayerStats::level(
                r.6[ev.player_index as int],
            ) <= RankedPlayerStats::level(stats[ev.player_index as int]) + 2 && (forall|p: int|
                0 <= p < stats.len() && p != ev.player_index ==> r.6[p] == stats[p]) && cap_diff - 1
                <= r.0 <= cap_diff + 1 && garbage_diff - 1 <= r.1 <= garbage_diff + 1
        }),
{
}

/// The ranked timeline replayed from event `i` on.
pub open spec fn spec_ranked_replay(
    events: Seq<RelevantEvent>,
    i: int,
    cap_diff: int,
    garbage_diff: int,
    red_fc: Option<usize>,
    blue_fc: Option<usize>,
    red_grab_time: Option<usize>,
    blue_grab_time: Option<usize>,
    stats: Seq<RankedPlayerStats>,
) -> (int, int, Seq<RankedPlayerStats>)
    decreases events.len() - i,
{
    if 0 <= i < events.len() {
        let r = spec_ranked_step(
            events[i],
            cap_diff,
            garbage_diff,
            red_fc,
            blue_fc,
            red_grab_time,
            blue_grab_time,
            stats,
        );
        spec_ranked_replay(events, i + 1, r.0, r.1, r.2, r.3, r.4, r.5, r.6)
    } else {
        (cap_diff, garbage_diff, stats)
    }
}

/// The difference of two ticks, clamped at zero.
pub open spec fn spec_sat_sub(a: usize, b: usize) -> usize {
    if a >= b {
        (a - b) as usize
    } else {
        0
    }
}

/// Does `v` hold `x`?
pub fn contains_index(v: &Vec<usize>, x: usize) -> (r: bool)
    ensures
        r == v@.contains(x),
{
    let mut i: usize = 0;
    while i < v.len()
        invariant
            i <= v@.len(),
            forall|k: int| 0 <= k < i ==> v@[k] != x,
        decreases v@.len() - i,
    {
        if v[i] == x {
            proof {
                assert(v@[i as int] == x);
            }
            return true;
        }
        i = i + 1;
    }
    proof {
        assert(forall|k: int| 0 <= k < v@.len() ==> v@[k] != x);
    }
    false
}

/// The largest tick and timeline length the pattern scans accept, so that
/// every window bound and every credited duration stays representable.
pub const SCAN_MAX_TICK: usize = 0x7FFFF;

pub const SCAN_MAX_EVENTS: usize = 0x1000;

/// The timeline is small enough to scan: a bounded number of events, each
/// within the tick bound, every acting player on the record list.
pub open spec fn scan_ready(events: Seq<RelevantEvent>, n_players: int) -> bool {
    events.len() <= SCAN_MAX_EVENTS && (forall|i: int|
        0 <= i < events.len() ==> (#[trigger] events[i]).time <= SCAN_MAX_TICK) && (forall|i: int|
        0 <= i < events.len() ==> (#[trigger] events[i]).player_index < n_players)
}

/// The pops in the two-second window before a capture, each credited to
/// an opposing popper, scanning backward from event `j`.
pub open spec fn spec_keypop_window(
    stats: Seq<RankedPlayerStats>,
    events: Seq<RelevantEvent>,
    j: int,
    cap_time: usize,
    cap_team: Team,
) -> Seq<RankedPlayerStats>
    decreases j + 1,
{
    if j < 0 {
        stats
    } else if events[j].time < spec_sat_sub(cap_time, 120) {
        stats
    } else {
        let stats2 = if events[j].event_type == Event::Pop && ((cap_team == Team::Red && events[j].team
            == Team::Blue) || (cap_team == Team::Blue && events[j].team == Team::Red)) {
            let p = events[j].player_index as int;
            stats.update(
                p,
                RankedPlayerStats { keypops: (stats[p].keypops + 1) as usize, ..stats[p] },
            )
        } else {
            stats
        };
        spec_keypop_window(stats2, events, j - 1, cap_time, cap_team)
    }
}

/// Every capture's keypop window, in timeline order from event `i`.
pub open spec fn spec_keypops(
    stats: Seq<RankedPlayerStats>,
    events: Seq<RelevantEvent>,
    i: int,
) -> Seq<RankedPlayerStats>
    decreases events.len() - i,
{
    if i < 0 || i >= events.len() {
        stats
    } else {
        let stats2 = if events[i].event_type == Event::Capture {
            spec_keypop_window(stats, events, i - 1, events[i].time, events[i].team)
        } else {
            stats
        };
        spec_keypops(stats2, events, i + 1)
    }
}

/// The first teammate grab within one second after a drop: its index, or
/// the timeline length when there is none in the window.
pub open spec fn spec_find_teammate_grab(
    events: Seq<RelevantEvent>,
    j: int,
    drop_time: usize,
    drop_team: Team,
    drop_player: usize,
) -> int
    decreases events.len() - j,
{
    if j < 0 || j >= events.len() {
        events.len() as int
    } else if events[j].time > drop_time + 60 {
        events.len() as int
    } else if events[j].event_type == Event::Grab && events[j].team == drop_team
        && events[j].player_index != drop_player {
        j
    } else {
        spec_find_teammate_grab(events, j + 1, drop_time, drop_team, drop_player)
    }
}

/// Whether the grab at tick `grab_time` by player `q` converts: a capture
/// by `q` before anyone else grabs or captures, or a drop by `q` at least
/// five seconds in.
pub open spec fn spec_handoff_converts(
    events: Seq<RelevantEvent>,
    k: int,
    grab_time: usize,
    q: usize,
) -> bool
    decreases events.len() - k,
{
    if k < 0 || k >= events.len() {
        false
    } else if events[k].event_type == Event::Capture && events[k].player_index == q {
        true
    } else if events[k].event_type == Event::Grab || events[k].event_type == Event::Capture {
        false
    } else if events[k].time >= grab_time + 300 && events[k].event_type == Event::Drop
        && events[k].player_index == q {
        true
    } else {
        spec_handoff_converts(events, k + 1, grab_time, q)
    }
}

/// One drop's handoff credit: the first teammate grab in the window, when
/// it converts, credits the dropper.
pub open spec fn spec_handoff_at(
    stats: Seq<RankedPlayerStats>,
    events: Seq<RelevantEvent>,
    i: int,
) -> Seq<RankedPlayerStats> {
    let j = spec_find_teammate_grab(
        events,
        i + 1,
        events[i].time,
        events[i].team,
        events[i].player_index,
    );
    if j < events.len() && spec_handoff_converts(
        events,
        j + 1,
        events[j].time,
        events[j].player_index,
    ) {
        let p = events[i].player_index as int;
        stats.update(p, RankedPlayerStats { handoffs: (stats[p].handoffs + 1) as usize, ..stats[p] })
    } else {
        stats
    }
}

/// Every drop's handoff credit, in timeline order from event `i`.
pub open spec fn spec_handoffs(
    stats: Seq<RankedPlayerStats>,
    events: Seq<RelevantEvent>,
    i: int,
) -> Seq<RankedPlayerStats>
    decreases events.len() - i,
{
    if i < 0 || i >= events.len() {
        stats
    } else {
        let stats2 = if events[i].event_type == Event::Drop {
            spec_handoff_at(stats, events, i)
        } else {
            stats
        };
        spec_handoffs(stats2, events, i + 1)
    }
}

/// The first stop-prevent by one player at or after event `j`: its index,
/// or the timeline length when there is none.
pub open spec fn spec_find_stop_prevent(events: Seq<RelevantEvent>, j: int, player: usize) -> int
    decreases events.len() - j,
{
    if j < 0 || j >= events.len() {
        events.len() as int
    } else if events[j].event_type == Event::StopPrevent && events[j].player_index == player {
        j
    } else {
        spec_find_stop_prevent(events, j + 1, player)
    }
}

/// Whether any teammate grab falls inside the prevent interval, among
/// events `k` through `j_end`.
pub open spec fn spec_teammate_grab_within(
    events: Seq<RelevantEvent>,
    k: int,
    j_end: int,
    mates: Seq<usize>,
    start: usize,
    end: usize,
) -> bool
    decreases j_end + 1 - k,
{
    if k < 0 || k > j_end || k >= events.len() {
        false
    } else if events[k].event_type == Event::Grab && mates.contains(events[k].player_index)
        && start <= events[k].time && events[k].time <= end {
        true
    } else {
        spec_teammate_grab_within(events, k + 1, j_end, mates, start, end)
    }
}

/// One start-prevent's credit: the full interval length goes to the
/// preventer when no teammate grabbed inside it.
pub open spec fn spec_goodprevent_at(
    stats: Seq<RankedPlayerStats>,
    events: Seq<RelevantEvent>,
    i: int,
    mates: Seq<usize>,
) -> Seq<RankedPlayerStats> {
    let player = events[i].player_index;
    let start = events[i].time;
    let j = spec_find_stop_prevent(events, i + 1, player);
    if j < events.len() {
        let end = events[j].time;
        if !spec_teammate_grab_within(events, i, j, mates, start, end) {
            let p = player as int;
            stats.update(
                p,
                RankedPlayerStats { goodprevent: (stats[p].goodprevent + (end - start)) as usize, ..stats[p] },
            )
        } else {
            stats
        }
    } else {
        stats
    }
}

/// Every prevent interval's credit, in timeline order from event `i`.
pub open spec fn spec_goodprevents(
    stats: Seq<RankedPlayerStats>,
    events: Seq<RelevantEvent>,
    i: int,
    red_team: Seq<usize>,
    blue_team: Seq<usize>,
) -> Seq<RankedPlayerStats>
    decreases events.len() - i,
{
    if i < 0 || i >= events.len() {
        stats
    } else {
        let stats2 = if events[i].event_type == Event::StartPrevent {
            let mates = if events[i].team == Team::Red {
                red_team
            } else {
                blue_team
            };
            spec_goodprevent_at(stats, events, i, mates)
        } else {
            stats
        };
        spec_goodprevents(stats2, events, i + 1, red_team, blue_team)
    }
}

/// Whether the grab at event `j` sustains: some later event reaches five
/// seconds past the grab before anyone else grabs, captures or drops.
pub open spec fn spec_grab_sustains(
    events: Seq<RelevantEvent>,
    k: int,
    grab_time: usize,
    grab_player: usize,
) -> bool
    decreases events.len() - k,
{
    if k < 0 || k >= events.len() {
        false
    } else if events[k].time >= grab_time + 300 {
        true
    } else if (events[k].event_type == Event::Grab || events[k].event_type == Event::Capture
        || events[k].event_type == Event::Drop) && events[k].player_index != grab_player {
        false
    } else {
        spec_grab_sustains(events, k + 1, grab_time, grab_player)
    }
}

/// Whether any opposing grab within five seconds of the return reaches a
/// sustained five-second hold.
pub open spec fn spec_reset_answered(
    events: Seq<RelevantEvent>,
    j: int,
    return_time: usize,
    opponents: Seq<usize>,
) -> bool
    decreases events.len() - j,
{
    if j < 0 || j >= events.len() {
        false
    } else if events[j].time > return_time + 300 {
        false
    } else if events[j].event_type == Event::Grab && opponents.contains(events[j].player_index)
        && spec_grab_sustains(events, j + 1, events[j].time, events[j].player_index) {
        true
    } else {
        spec_reset_answered(events, j + 1, return_time, opponents)
    }
}

/// Every return's reset credit, in timeline order from event `i`: a
/// return no opposing grab promptly answers with a sustained hold counts
/// as a reset.
pub open spec fn spec_resets(
    stats: Seq<RankedPlayerStats>,
    events: Seq<RelevantEvent>,
    i: int,
    red_team: Seq<usize>,
    blue_team: Seq<usize>,
) -> Seq<RankedPlayerStats>
    decreases events.len() - i,
{
    if i < 0 || i >= events.len() {
        stats
    } else {
        let stats2 = if events[i].event_type == Event::Return {
            let opponents = if events[i].team == Team::Red {
                blue_team
            } else {
                red_team
            };
            if !spec_reset_answered(events, i + 1, events[i].time, opponents) {
                let p = events[i].player_index as int;
                stats.update(
                    p,
                    RankedPlayerStats { resets: (stats[p].resets + 1) as usize, ..stats[p] },
                )
            } else {
                stats
            }
        } else {
            stats
        };
        spec_resets(stats2, events, i + 1, red_team, blue_team)
    }
}

/// The most recent grab by one player strictly before event `i`, scanning
/// backward from event `j`.
pub open spec fn spec_last_grab_time(events: Seq<RelevantEvent>, j: int, player: usize) -> Option<
    usize,
>
    decreases j + 1,
{
    if j < 0 {
        None
    } else if events[j].event_type == Event::Grab && events[j].player_index == player {
        Some(events[j].time)
    } else {
        spec_last_grab_time(events, j - 1, player)
    }
}

/// In a timeline whose ticks up to event `j` are at most `t`, the most
/// recent grab is no later than `t`.
proof fn lemma_last_grab_le(events: Seq<RelevantEvent>, j: int, t: usize, player: usize)
    requires
        forall|k: int| 0 <= k <= j ==> (#[trigger] events[k]).time <= t,
        j < events.len(),
    ensures
        match spec_last_grab_time(events, j, player) {
            Some(g) => g <= t,
            None => true,
        },
    decreases j + 1,
{
    if j >= 0 {
        if !(events[j].event_type == Event::Grab && events[j].player_index == player) {
            lemma_last_grab_le(events, j - 1, t, player);
        }
    }
}

/// Whether an opposing capture falls within ten seconds after the drop.
pub open spec fn spec_opposing_capture_within(
    events: Seq<RelevantEvent>,
    j: int,
    drop_time: usize,
    drop_team: Team,
) -> bool
    decreases events.len() - j,
{
    if j < 0 || j >= events.len() {
        false
    } else if events[j].time > drop_time + 600 {
        false
    } else if events[j].event_type == Event::Capture && ((drop_team == Team::Red && events[j].team
        == Team::Blue) || (drop_team == Team::Blue && events[j].team == Team::Red)) {
        true
    } else {
        spec_opposing_capture_within(events, j + 1, drop_time, drop_team)
    }
}

/// Every drop's flaccid credit, in timeline order from event `i`: a drop
/// under two seconds after the player's own grab, answered by an opposing
/// capture within ten seconds, counts against the dropper.
pub open spec fn spec_badflaccids(
    stats: Seq<RankedPlayerStats>,
    events: Seq<RelevantEvent>,
    i: int,
) -> Seq<RankedPlayerStats>
    decreases events.len() - i,
{
    if i < 0 || i >= events.len() {
        stats
    } else {
        let stats2 = if events[i].event_type == Event::Drop {
            let hold_time: usize = match spec_last_grab_time(
                events,
                i - 1,
                events[i].player_index,
            ) {
                Some(g) => (events[i].time - g) as usize,
                None => 0,
            };
            if hold_time < 120 && spec_opposing_capture_within(
                events,
                i + 1,
                events[i].time,
                events[i].team,
            ) {
                let p = events[i].player_index as int;
                stats.update(
                    p,
                    RankedPlayerStats { badflaccids: (stats[p].badflaccids + 1) as usize, ..stats[p] },
                )
            } else {
                stats
            }
        } else {
            stats
        };
        spec_badflaccids(stats2, events, i + 1)
    }
}

/// Whether the teammate who grabbed at event `j` still holds at event
/// `i`: no drop or capture by that teammate stands between them.
pub open spec fn spec_still_holding(
    events: Seq<RelevantEvent>,
    k: int,
    i: int,
    teammate: usize,
) -> bool
    decreases i - k,
{
    if k < 0 || k >= i {
        true
    } else if (events[k].event_type == Event::Drop || events[k].event_type == Event::Capture)
        && events[k].player_index == teammate {
        false
    } else {
        spec_still_holding(events, k + 1, i, teammate)
    }
}

/// Whether the grab at tick `grab_time` by one player sustains five
/// seconds before any further grab, capture or drop of that same player
/// interrupts it.
pub open spec fn spec_sparked_sustains(
    events: Seq<RelevantEvent>,
    k: int,
    grab_time: usize,
    grab_player: usize,
) -> bool
    decreases events.len() - k,
{
    if k < 0 || k >= events.len() {
        false
    } else if events[k].time >= grab_time + 300 {
        true
    } else if (events[k].event_type == Event::Grab || events[k].event_type == Event::Capture
        || events[k].event_type == Event::Drop) && events[k].player_index == grab_player {
        false
    } else {
        spec_sparked_sustains(events, k + 1, grab_time, grab_player)
    }
}

/// Whether some teammate grabbed within the last three seconds and still
/// holds at event `i`, scanning backward from event `j`.
pub open spec fn spec_teammate_holding(
    events: Seq<RelevantEvent>,
    j: int,
    i: int,
    grab_time: usize,
    grab_player: usize,
    mates: Seq<usize>,
) -> bool
    decreases j + 1,
{
    if j < 0 {
        false
    } else if events[j].time < spec_sat_sub(grab_time, 180) {
        false
    } else if events[j].event_type == Event::Grab && mates.contains(events[j].player_index)
        && events[j].player_index != grab_player && spec_still_holding(
        events,
        j + 1,
        i,
        events[j].player_index,
    ) && events[j].time <= grab_time {
        true
    } else {
        spec_teammate_holding(events, j - 1, i, grab_time, grab_player, mates)
    }
}

/// Every grab's sparkedout credit, in timeline order from event `i`: a
/// grab with no concurrently held teammate grab in the last three seconds
/// that itself sustains five seconds counts for the grabber.
pub open spec fn spec_sparkedouts(
    stats: Seq<RankedPlayerStats>,
    events: Seq<RelevantEvent>,
    i: int,
    red_team: Seq<usize>,
    blue_team: Seq<usize>,
) -> Seq<RankedPlayerStats>
    decreases events.len() - i,
{
    if i < 0 || i >= events.len() {
        stats
    } else {
        let stats2 = if events[i].event_type == Event::Grab {
            let mates = if events[i].team == Team::Red {
                red_team
            } else {
                blue_team
            };
            if !spec_teammate_holding(
                events,
                i - 1,
                i,
                events[i].time,
                events[i].player_index,
                mates,
            ) && spec_sparked_sustains(events, i + 1, events[i].time, events[i].player_index) {
                let p = events[i].player_index as int;
                stats.update(
                    p,
                    RankedPlayerStats { sparkedouts: (stats[p].sparkedouts + 1) as usize, ..stats[p] },
                )
            } else {
                stats
            }
        } else {
            stats
        };
        spec_sparkedouts(stats2, events, i + 1, red_team, blue_team)
    }
}

/// The first teammate grab within one second after a drop, as
/// `spec_find_teammate_grab` describes.
fn find_teammate_grab(
    events: &Vec<RelevantEvent>,
    start: usize,
    drop_time: usize,
    drop_team: Team,
    drop_player: usize,
) -> (j: usize)
    requires
        drop_time <= SCAN_MAX_TICK,
        start <= events@.len(),
    ensures
        j as int == spec_find_teammate_grab(
            events@,
            start as int,
            drop_time,
            drop_team,
            drop_player,
        ),
        start <= j <= events@.len(),
{
    let mut j = start;
    while j < events.len()
        invariant
            spec_find_teammate_grab(events@, j as int, drop_time, drop_team, drop_player)
                == spec_find_teammate_grab(events@, start as int, drop_time, drop_team, drop_player),
            start <= j,
            start <= events@.len(),
            drop_time <= SCAN_MAX_TICK,
        decreases events@.len() - j,
    {
        if events[j].time > drop_time + 60 {
            return events.len();
        }
        if matches!(events[j].event_type, Event::Grab) && events[j].team == drop_team
            && events[j].player_index != drop_player {
            return j;
        }
        j = j + 1;
    }
    events.len()
}

/// Whether a handoff grab converts, as `spec_handoff_converts` describes.
fn handoff_converts(events: &Vec<RelevantEvent>, start: usize, grab_time: usize, q: usize) -> (r:
    bool)
    requires
        grab_time <= SCAN_MAX_TICK,
    ensures
        r == spec_handoff_converts(events@, start as int, grab_time, q),
{
    let mut k = start;
    while k < events.len()
        invariant
            spec_handoff_converts(events@, k as int, grab_time, q) == spec_handoff_converts(
                events@,
                start as int,
                grab_time,
                q,
            ),
            grab_time <= SCAN_MAX_TICK,
        decreases events@.len() - k,
    {
        if matches!(events[k].event_type, Event::Capture) && events[k].player_index == q {
            return true;
        }
        if matches!(events[k].event_type, Event::Grab) || matches!(
            events[k].event_type,
            Event::Capture,
        ) {
            return false;
        }
        if events[k].time >= grab_time + 300 && matches!(events[k].event_type, Event::Drop)
            && events[k].player_index == q {
            return true;
        }
        k = k + 1;
    }
    false
}

/// The first stop-prevent by one player, as `spec_find_stop_prevent`
/// describes.
fn find_stop_prevent(events: &Vec<RelevantEvent>, start: usize, player: usize) -> (j: usize)
    requires
        start <= events@.len(),
    ensures
        j as int == spec_find_stop_prevent(events@, start as int, player),
        start <= j <= events@.len(),
{
    let mut j = start;
    while j < events.len()
        invariant
            spec_find_stop_prevent(events@, j as int, player) == spec_find_stop_prevent(
                events@,
                start as int,
                player,
            ),
            start <= j,
            start <= events@.len(),
        decreases events@.len() - j,
    {
        if matches!(events[j].event_type, Event::StopPrevent) && events[j].player_index == player {
            return j;
        }
        j = j + 1;
    }
    events.len()
}

/// Whether any teammate grab falls inside a prevent interval, as
/// `spec_teammate_grab_within` describes.
fn teammate_grab_within(
    events: &Vec<RelevantEvent>,
    start: usize,
    j_end: usize,
    mates: &Vec<usize>,
    lo: usize,
    hi: usize,
) -> (r: bool)
    requires
        j_end < events@.len(),
        j_end < usize::MAX,
    ensures
        r == spec_teammate_grab_within(events@, start as int, j_end as int, mates@, lo, hi),
{
    let mut k = start;
    while k <= j_end
        invariant
            j_end < events@.len(),
            j_end < usize::MAX,
            spec_teammate_grab_within(events@, k as int, j_end as int, mates@, lo, hi)
                == spec_teammate_grab_within(events@, start as int, j_end as int, mates@, lo, hi),
        decreases j_end + 1 - k,
    {
        if matches!(events[k].event_type, Event::Grab) && contains_index(
            mates,
            events[k].player_index,
        ) && lo <= events[k].time && events[k].time <= hi {
            return true;
        }
        k = k + 1;
    }
    false
}

/// Whether a grab sustains five seconds against interruptions by others,
/// as `spec_grab_sustains` describes.
fn grab_sustains(
    events: &Vec<RelevantEvent>,
    start: usize,
    grab_time: usize,
    grab_player: usize,
) -> (r: bool)
    requires
        grab_time <= SCAN_MAX_TICK,
    ensures
        r == spec_grab_sustains(events@, start as int, grab_time, grab_player),
{
    let mut k = start;
    while k < events.len()
        invariant
            spec_grab_sustains(events@, k as int, grab_time, grab_player) == spec_grab_sustains(
                events@,
                start as int,
                grab_time,
                grab_player,
            ),
            grab_time <= SCAN_MAX_TICK,
        decreases events@.len() - k,
    {
        if events[k].time >= grab_time + 300 {
            return true;
        }
        if (matches!(events[k].event_type, Event::Grab) || matches!(
            events[k].event_type,
            Event::Capture,
        ) || matches!(events[k].event_type, Event::Drop)) && events[k].player_index
            != grab_player {
            return false;
        }
        k = k + 1;
    }
    false
}

/// Whether a grab sustains five seconds against the grabber's own
/// interruptions, as `spec_sparked_sustains` describes.
fn sparked_sustains(
    events: &Vec<RelevantEvent>,
    start: usize,
    grab_time: usize,
    grab_player: usize,
) -> (r: bool)
    requires
        grab_time <= SCAN_MAX_TICK,
    ensures
        r == spec_sparked_sustains(events@, start as int, grab_time, grab_player),
{
    let mut k = start;
    while k < events.len()
        invariant
            spec_sparked_sustains(events@, k as int, grab_time, grab_player)
                == spec_sparked_sustains(events@, start as int, grab_time, grab_player),
            grab_time <= SCAN_MAX_TICK,
        decreases events@.len() - k,
    {
        if events[k].time >= grab_time + 300 {
            return true;
        }
        if (matches!(events[k].event_type, Event::Grab) || matches!(
            events[k].event_type,
            Event::Capture,
        ) || matches!(events[k].event_type, Event::Drop)) && events[k].player_index
            == grab_player {
            return false;
        }
        k = k + 1;
    }
    false
}

/// Whether an opposing grab answers a return with a sustained hold, as
/// `spec_reset_answered` describes.
fn reset_answered(
    events: &Vec<RelevantEvent>,
    start: usize,
    return_time: usize,
    opponents: &Vec<usize>,
) -> (r: bool)
    requires
        return_time <= SCAN_MAX_TICK,
        forall|k: int| 0 <= k < events@.len() ==> (#[trigger] events@[k]).time <= SCAN_MAX_TICK,
    ensures
        r == spec_reset_answered(events@, start as int, return_time, opponents@),
{
    let mut j = start;
    while j < events.len()
        invariant
            spec_reset_answered(events@, j as int, return_time, opponents@)
                == spec_reset_answered(events@, start as int, return_time, opponents@),
            forall|k: int| 0 <= k < events@.len() ==> (#[trigger] events@[k]).time <= SCAN_MAX_TICK,
            return_time <= SCAN_MAX_TICK,
        decreases events@.len() - j,
    {
        if events[j].time > return_time + 300 {
            return false;
        }
        if matches!(events[j].event_type, Event::Grab) && contains_index(
            opponents,
            events[j].player_index,
        ) {
            if grab_sustains(events, j + 1, events[j].time, events[j].player_index) {
                return true;
            }
        }
        j = j + 1;
    }
    false
}

/// The most recent grab by one player before event `i`, as
/// `spec_last_grab_time` describes.
fn last_grab_time(events: &Vec<RelevantEvent>, i: usize, player: usize) -> (r: Option<usize>)
    requires
        i <= events@.len(),
    ensures
        r == spec_last_grab_time(events@, i as int - 1, player),
{
    let mut j = i;
    while j > 0
        invariant
            j <= i <= events@.len(),
            spec_last_grab_time(events@, j as int - 1, player) == spec_last_grab_time(
                events@,
                i as int - 1,
                player,
            ),
        decreases j,
    {
        let jj = j - 1;
        if matches!(events[jj].event_type, Event::Grab) && events[jj].player_index == player {
            return Some(events[jj].time);
        }
        j = jj;
    }
    None
}

/// Whether an opposing capture answers a drop within ten seconds, as
/// `spec_opposing_capture_within` describes.
fn opposing_capture_within(
    events: &Vec<RelevantEvent>,
    start: usize,
    drop_time: usize,
    drop_team: Team,
) -> (r: bool)
    requires
        drop_time <= SCAN_MAX_TICK,
    ensures
        r == spec_opposing_capture_within(events@, start as int, drop_time, drop_team),
{
    let mut j = start;
    while j < events.len()
        invariant
            spec_opposing_capture_within(events@, j as int, drop_time, drop_team)
                == spec_opposing_capture_within(events@, start as int, drop_time, drop_team),
            drop_time <= SCAN_MAX_TICK,
        decreases events@.len() - j,
    {
        if events[j].time > drop_time + 600 {
            return false;
        }
        if matches!(events[j].event_type, Event::Capture) && ((matches!(drop_team, Team::Red)
            && matches!(events[j].team, Team::Blue)) || (matches!(drop_team, Team::Blue)
            && matches!(events[j].team, Team::Red))) {
            return true;
        }
        j = j + 1;
    }
    false
}

/// Whether a teammate's earlier grab is still held at event `i`, as
/// `spec_still_holding` describes.
fn still_holding(events: &Vec<RelevantEvent>, start: usize, i: usize, teammate: usize) -> (r: bool)
    requires
        i <= events@.len(),
    ensures
        r == spec_still_holding(events@, start as int, i as int, teammate),
{
    let mut k = start;
    while k < i
        invariant
            i <= events@.len(),
            spec_still_holding(events@, k as int, i as int, teammate) == spec_still_holding(
                events@,
                start as int,
                i as int,
                teammate,
            ),
        decreases i - k,
    {
        if (matches!(events[k].event_type, Event::Drop) || matches!(
            events[k].event_type,
            Event::Capture,
        )) && events[k].player_index == teammate {
            return false;
        }
        k = k + 1;
    }
    true
}

/// Whether some teammate grab from the last three seconds is still held,
/// as `spec_teammate_holding` describes.
fn teammate_holding(
    events: &Vec<RelevantEvent>,
    i: usize,
    grab_time: usize,
    grab_player: usize,
    mates: &Vec<usize>,
) -> (r: bool)
    requires
        i <= events@.len(),
    ensures
        r == spec_teammate_holding(events@, i as int - 1, i as int, grab_time, grab_player, mates@),
{
    let lo = if grab_time >= 180 {
        grab_time - 180
    } else {
        0
    };
    let mut j = i;
    while j > 0
        invariant
            j <= i <= events@.len(),
            lo == spec_sat_sub(grab_time, 180),
            spec_teammate_holding(events@, j as int - 1, i as int, grab_time, grab_player, mates@)
                == spec_teammate_holding(
                events@,
                i as int - 1,
                i as int,
                grab_time,
                grab_player,
                mates@,
            ),
        decreases j,
    {
        let jj = j - 1;
        if events[jj].time < lo {
            return false;
        }
        if matches!(events[jj].event_type, Event::Grab) && contains_index(
            mates,
            events[jj].player_index,
        ) && events[jj].player_index != grab_player && events[jj].time <= grab_time {
            if still_holding(events, jj + 1, i, events[jj].player_index) {
                return true;
            }
        }
        j = jj;
    }
    false
}

/// The ranked rule set: one record per player, the dispatch above, and
/// the bounded-window pattern scans over the completed timeline.
pub struct RankedStatConfig;

impl RankedStatConfig {
    /// Credits keypops: every pop by the opposing team within two seconds
    /// before a capture, as `spec_keypops` describes.
    pub fn process_keypops(
        all_events: &Vec<RelevantEvent>,
        all_player_stats: &mut Vec<RankedPlayerStats>,
    )
        requires
            all_events@.len() <= SCAN_MAX_EVENTS,
            forall|k: int|
                0 <= k < all_events@.len() ==> (#[trigger] all_events@[k]).player_index < old(
                    all_player_stats,
                )@.len(),
            forall|p: int|
                0 <= p < old(all_player_stats)@.len() ==> (#[trigger] old(
                    all_player_stats,
                )@[p]).keypops == 0,
        ensures
            final(all_player_stats)@ == spec_keypops(old(all_player_stats)@, all_events@, 0),
            final(all_player_stats)@.len() == old(all_player_stats)@.len(),
    {
        let ghost n = all_events@.len() as int;
        let mut i: usize = 0;
        while i < all_events.len()
            invariant
                i <= n,
                n == all_events@.len(),
                n <= SCAN_MAX_EVENTS,
                all_player_stats@.len() == old(all_player_stats)@.len(),
                forall|k: int|
                    0 <= k < n ==> (#[trigger] all_events@[k]).player_index
                        < all_player_stats@.len(),
                spec_keypops(all_player_stats@, all_events@, i as int) == spec_keypops(
                    old(all_player_stats)@,
                    all_events@,
                    0,
                ),
                forall|p: int|
                    0 <= p < all_player_stats@.len() ==> (#[trigger] all_player_stats@[p]).keypops
                        <= n * i,
            decreases n - i,
        {
            if matches!(all_events[i].event_type, Event::Capture) {
                let cap_time = all_events[i].time;
                let cap_team = all_events[i].team;
                let lo = if cap_time >= 120 {
                    cap_time - 120
                } else {
                    0
                };
                let ghost entry = all_player_stats@;
                let mut j: usize = i;
                loop
                    invariant_except_break
                        spec_keypop_window(
                            all_player_stats@,
                            all_events@,
                            j as int - 1,
                            cap_time,
                            cap_team,
                        ) == spec_keypop_window(
                            entry,
                            all_events@,
                            i as int - 1,
                            cap_time,
                            cap_team,
                        ),
                    invariant
                        j <= i < n,
                        n == all_events@.len(),
                        n <= SCAN_MAX_EVENTS,
                        all_player_stats@.len() == old(all_player_stats)@.len(),
                        forall|k: int|
                            0 <= k < n ==> (#[trigger] all_events@[k]).player_index
                                < all_player_stats@.len(),
                        lo == spec_sat_sub(cap_time, 120),
                        forall|p: int|
                            0 <= p < all_player_stats@.len() ==> (#[trigger] all_player_stats@[p]).keypops
                                <= n * i + (i - j),
                    ensures
                        all_player_stats@ == spec_keypop_window(
                            entry,
                            all_events@,
                            i as int - 1,
                            cap_time,
                            cap_team,
                        ),
                        all_player_stats@.len() == old(all_player_stats)@.len(),
                        forall|p: int|
                            0 <= p < all_player_stats@.len() ==> (#[trigger] all_player_stats@[p]).keypops
                                <= n * i + i,
                    decreases j,
                {
                    if j == 0 {
                        break ;
                    }
                    let jj = j - 1;
                    if all_events[jj].time < lo {
                        break ;
                    }
                    if matches!(all_events[jj].event_type, Event::Pop) && ((matches!(
                        cap_team,
                        Team::Red,
                    ) && matches!(all_events[jj].team, Team::Blue)) || (matches!(
                        cap_team,
                        Team::Blue,
                    ) && matches!(all_events[jj].team, Team::Red))) {
                        let p = all_events[jj].player_index;
                        proof {
                            assert(n * i <= SCAN_MAX_EVENTS * SCAN_MAX_EVENTS) by (nonlinear_arith)
                                requires
                                    0 <= i <= n <= SCAN_MAX_EVENTS,
                            ;
                        }
                        all_player_stats[p].keypops = all_player_stats[p].keypops + 1;
                    }
                    j = jj;
                }
            }
            proof {
                assert(n * i + i <= n * (i + 1)) by (nonlinear_arith)
                    requires
                        0 <= i <= n,
                ;
                assert(n * i <= n * (i + 1)) by (nonlinear_arith)
                    requires
                        0 <= i <= n,
                ;
            }
            i = i + 1;
        }
    }

    /// Credits handoffs: a drop whose first in-window teammate grab
    /// converts, as `spec_handoffs` describes.
    pub fn process_handoffs(
        all_events: &Vec<RelevantEvent>,
        all_player_stats: &mut Vec<RankedPlayerStats>,
    )
        requires
            all_events@.len() <= SCAN_MAX_EVENTS,
            forall|k: int|
                0 <= k < all_events@.len() ==> (#[trigger] all_events@[k]).player_index < old(
                    all_player_stats,
                )@.len(),
            forall|k: int|
                0 <= k < all_events@.len() ==> (#[trigger] all_events@[k]).time <= SCAN_MAX_TICK,
            forall|p: int|
                0 <= p < old(all_player_stats)@.len() ==> (#[trigger] old(
                    all_player_stats,
                )@[p]).handoffs == 0,
        ensures
            final(all_player_stats)@ == spec_handoffs(old(all_player_stats)@, all_events@, 0),
            final(all_player_stats)@.len() == old(all_player_stats)@.len(),
    {
        let ghost n = all_events@.len() as int;
        let mut i: usize = 0;
        while i < all_events.len()
            invariant
                i <= n,
                n == all_events@.len(),
                n <= SCAN_MAX_EVENTS,
                all_player_stats@.len() == old(all_player_stats)@.len(),
                forall|k: int|
                    0 <= k < n ==> (#[trigger] all_events@[k]).player_index
                        < all_player_stats@.len(),
                forall|k: int|
                    0 <= k < n ==> (#[trigger] all_events@[k]).time <= SCAN_MAX_TICK,
                spec_handoffs(all_player_stats@, all_events@, i as int) == spec_handoffs(
                    old(all_player_stats)@,
                    all_events@,
                    0,
                ),
                forall|p: int|
                    0 <= p < all_player_stats@.len() ==> (#[trigger] all_player_stats@[p]).handoffs
                        <= i,
            decreases n - i,
        {
            if matches!(all_events[i].event_type, Event::Drop) {
                let j = find_teammate_grab(
                    all_events,
                    i + 1,
                    all_events[i].time,
                    all_events[i].team,
                    all_events[i].player_index,
                );
                if j < all_events.len() && handoff_converts(
                    all_events,
                    j + 1,
                    all_events[j].time,
                    all_events[j].player_index,
                ) {
                    let p = all_events[i].player_index;
                    all_player_stats[p].handoffs = all_player_stats[p].handoffs + 1;
                }
            }
            i = i + 1;
        }
    }

    /// Credits goodprevent time: a prevent interval with no teammate grab
    /// inside it, as `spec_goodprevents` describes.
    pub fn process_goodprevent(
        all_events: &Vec<RelevantEvent>,
        all_player_stats: &mut Vec<RankedPlayerStats>,
        red_team: &Vec<usize>,
        blue_team: &Vec<usize>,
    )
        requires
            crate::timeline::spec_sorted_by_time(all_events@),
            all_events@.len() <= SCAN_MAX_EVENTS,
            forall|k: int|
                0 <= k < all_events@.len() ==> (#[trigger] all_events@[k]).player_index < old(
                    all_player_stats,
                )@.len(),
            forall|k: int|
                0 <= k < all_events@.len() ==> (#[trigger] all_events@[k]).time <= SCAN_MAX_TICK,
            forall|p: int|
                0 <= p < old(all_player_stats)@.len() ==> (#[trigger] old(
                    all_player_stats,
                )@[p]).goodprevent == 0,
        ensures
            final(all_player_stats)@ == spec_goodprevents(
                old(all_player_stats)@,
                all_events@,
                0,
                red_team@,
                blue_team@,
            ),
            final(all_player_stats)@.len() == old(all_player_stats)@.len(),
    {
        let ghost n = all_events@.len() as int;
        let mut i: usize = 0;
        while i < all_events.len()
            invariant
                i <= n,
                n == all_events@.len(),
                n <= SCAN_MAX_EVENTS,
                crate::timeline::spec_sorted_by_time(all_events@),
                all_player_stats@.len() == old(all_player_stats)@.len(),
                forall|k: int|
                    0 <= k < n ==> (#[trigger] all_events@[k]).player_index
                        < all_player_stats@.len(),
                forall|k: int|
                    0 <= k < n ==> (#[trigger] all_events@[k]).time <= SCAN_MAX_TICK,
                spec_goodprevents(all_player_stats@, all_events@, i as int, red_team@, blue_team@)
                    == spec_goodprevents(
                    old(all_player_stats)@,
                    all_events@,
                    0,
                    red_team@,
                    blue_team@,
                ),
                forall|p: int|
                    0 <= p < all_player_stats@.len() ==> (#[trigger] all_player_stats@[p]).goodprevent
                        <= SCAN_MAX_TICK * i,
            decreases n - i,
        {
            if matches!(all_events[i].event_type, Event::StartPrevent) {
                let player = all_events[i].player_index;
                let start = all_events[i].time;
                let mates = if matches!(all_events[i].team, Team::Red) {
                    red_team
                } else {
                    blue_team
                };
                let j = find_stop_prevent(all_events, i + 1, player);
                if j < all_events.len() {
                    let end = all_events[j].time;
                    proof {
                        assert(all_events@[i as int].time <= all_events@[j as int].time);
                        assert(start <= end);
                        assert(SCAN_MAX_TICK * i + SCAN_MAX_TICK <= SCAN_MAX_TICK * (i + 1) && SCAN_MAX_TICK
                            * (i + 1) <= SCAN_MAX_TICK * SCAN_MAX_EVENTS) by (nonlinear_arith)
                            requires
                                0 <= i < n <= SCAN_MAX_EVENTS,
                        ;
                    }
                    if !teammate_grab_within(all_events, i, j, mates, start, end) {
                        all_player_stats[player].goodprevent = all_player_stats[player].goodprevent
                            + (end - start);
                    }
                }
            }
            proof {
                assert(SCAN_MAX_TICK * i + SCAN_MAX_TICK == SCAN_MAX_TICK * (i + 1))
                    by (nonlinear_arith);
            }
            i = i + 1;
        }
    }

    /// Credits resets: a return that no opposing grab answers with a
    /// sustained hold, as `spec_resets` describes.
    pub fn process_resets(
        all_events: &Vec<RelevantEvent>,
        all_player_stats: &mut Vec<RankedPlayerStats>,
        red_team: &Vec<usize>,
        blue_team: &Vec<usize>,
    )
        requires
            all_events@.len() <= SCAN_MAX_EVENTS,
            forall|k: int|
                0 <= k < all_events@.len() ==> (#[trigger] all_events@[k]).player_index < old(
                    all_player_stats,
                )@.len(),
            forall|k: int|
                0 <= k < all_events@.len() ==> (#[trigger] all_events@[k]).time <= SCAN_MAX_TICK,
            forall|p: int|
                0 <= p < old(all_player_stats)@.len() ==> (#[trigger] old(
                    all_player_stats,
                )@[p]).resets == 0,
        ensures
            final(all_player_stats)@ == spec_resets(
                old(all_player_stats)@,
                all_events@,
                0,
                red_team@,
                blue_team@,
            ),
            final(all_player_stats)@.len() == old(all_player_stats)@.len(),
    {
        let ghost n = all_events@.len() as int;
        let mut i: usize = 0;
        while i < all_events.len()
            invariant
                i <= n,
                n == all_events@.len(),
                n <= SCAN_MAX_EVENTS,
                all_player_stats@.len() == old(all_player_stats)@.len(),
                forall|k: int|
                    0 <= k < n ==> (#[trigger] all_events@[k]).player_index
                        < all_player_stats@.len(),
                forall|k: int|
                    0 <= k < n ==> (#[trigger] all_events@[k]).time <= SCAN_MAX_TICK,
                spec_resets(all_player_stats@, all_events@, i as int, red_team@, blue_team@)
                    == spec_resets(old(all_player_stats)@, all_events@, 0, red_team@, blue_team@),
                forall|p: int|
                    0 <= p < all_player_stats@.len() ==> (#[trigger] all_player_stats@[p]).resets
                        <= i,
            decreases n - i,
        {
            if matches!(all_events[i].event_type, Event::Return) {
                let opponents = if matches!(all_events[i].team, Team::Red) {
                    blue_team
                } else {
                    red_team
                };
                if !reset_answered(all_events, i + 1, all_events[i].time, opponents) {
                    let p = all_events[i].player_index;
                    all_player_stats[p].resets = all_player_stats[p].resets + 1;
                }
            }
            i = i + 1;
        }
    }

    /// Credits badflaccids: a drop under two seconds of hold answered by
    /// an opposing capture within ten seconds, as `spec_badflaccids`
    /// describes.
    pub fn process_badflaccids(
        all_events: &Vec<RelevantEvent>,
        all_player_stats: &mut Vec<RankedPlayerStats>,
    )
        requires
            crate::timeline::spec_sorted_by_time(all_events@),
            all_events@.len() <= SCAN_MAX_EVENTS,
            forall|k: int|
                0 <= k < all_events@.len() ==> (#[trigger] all_events@[k]).player_index < old(
                    all_player_stats,
                )@.len(),
            forall|k: int|
                0 <= k < all_events@.len() ==> (#[trigger] all_events@[k]).time <= SCAN_MAX_TICK,
            forall|p: int|
                0 <= p < old(all_player_stats)@.len() ==> (#[trigger] old(
                    all_player_stats,
                )@[p]).badflaccids == 0,
        ensures
            final(all_player_stats)@ == spec_badflaccids(old(all_player_stats)@, all_events@, 0),
            final(all_player_stats)@.len() == old(all_player_stats)@.len(),
    {
        let ghost n = all_events@.len() as int;
        let mut i: usize = 0;
        while i < all_events.len()
            invariant
                i <= n,
                n == all_events@.len(),
                n <= SCAN_MAX_EVENTS,
                crate::timeline::spec_sorted_by_time(all_events@),
                all_player_stats@.len() == old(all_player_stats)@.len(),
                forall|k: int|
                    0 <= k < n ==> (#[trigger] all_events@[k]).player_index
                        < all_player_stats@.len(),
                forall|k: int|
                    0 <= k < n ==> (#[trigger] all_events@[k]).time <= SCAN_MAX_TICK,
                spec_badflaccids(all_player_stats@, all_events@, i as int) == spec_badflaccids(
                    old(all_player_stats)@,
                    all_events@,
                    0,
                ),
                forall|p: int|
                    0 <= p < all_player_stats@.len() ==> (#[trigger] all_player_stats@[p]).badflaccids
                        <= i,
            decreases n - i,
        {
            if matches!(all_events[i].event_type, Event::Drop) {
                let drop_time = all_events[i].time;
                proof {
                    assert forall|k: int| 0 <= k <= i as int - 1 implies (#[trigger] all_events@[k]).time
                        <= drop_time by {
                        assert(all_events@[k].time <= all_events@[i as int].time);
                    }
                    lemma_last_grab_le(
                        all_events@,
                        i as int - 1,
                        drop_time,
                        all_events@[i as int].player_index,
                    );
                }
                let hold_time: usize = match last_grab_time(
                    all_events,
                    i,
                    all_events[i].player_index,
                ) {
                    Some(g) => drop_time - g,
                    None => 0,
                };
                if hold_time < 120 && opposing_capture_within(
                    all_events,
                    i + 1,
                    drop_time,
                    all_events[i].team,
                ) {
                    let p = all_events[i].player_index;
                    all_player_stats[p].badflaccids = all_player_stats[p].badflaccids + 1;
                }
            }
            i = i + 1;
        }
    }

    /// Credits sparkedouts: a solo grab that sustains five seconds, as
    /// `spec_sparkedouts` describes.
    pub fn process_sparkedouts(
        all_events: &Vec<RelevantEvent>,
        all_player_stats: &mut Vec<RankedPlayerStats>,
        red_team: &Vec<usize>,
        blue_team: &Vec<usize>,
    )
        requires
            all_events@.len() <= SCAN_MAX_EVENTS,
            forall|k: int|
                0 <= k < all_events@.len() ==> (#[trigger] all_events@[k]).player_index < old(
                    all_player_stats,
                )@.len(),
            forall|k: int|
                0 <= k < all_events@.len() ==> (#[trigger] all_events@[k]).time <= SCAN_MAX_TICK,
            forall|p: int|
                0 <= p < old(all_player_stats)@.len() ==> (#[trigger] old(
                    all_player_stats,
                )@[p]).sparkedouts == 0,
        ensures
            final(all_player_stats)@ == spec_sparkedouts(
                old(all_player_stats)@,
                all_events@,
                0,
                red_team@,
                blue_team@,
            ),
            final(all_player_stats)@.len() == old(all_player_stats)@.len(),
    {
        let ghost n = all_events@.len() as int;
        let mut i: usize = 0;
        while i < all_events.len()
            invariant
                i <= n,
                n == all_events@.len(),
                n <= SCAN_MAX_EVENTS,
                all_player_stats@.len() == old(all_player_stats)@.len(),
                forall|k: int|
                    0 <= k < n ==> (#[trigger] all_events@[k]).player_index
                        < all_player_stats@.len(),
                forall|k: int|
                    0 <= k < n ==> (#[trigger] all_events@[k]).time <= SCAN_MAX_TICK,
                spec_sparkedouts(all_player_stats@, all_events@, i as int, red_team@, blue_team@)
                    == spec_sparkedouts(
                    old(all_player_stats)@,
                    all_events@,
                    0,
                    red_team@,
                    blue_team@,
                ),
                forall|p: int|
                    0 <= p < all_player_stats@.len() ==> (#[trigger] all_player_stats@[p]).sparkedouts
                        <= i,
            decreases n - i,
        {
            if matches!(all_events[i].event_type, Event::Grab) {
                let mates = if matches!(all_events[i].team, Team::Red) {
                    red_team
                } else {
                    blue_team
                };
                if !teammate_holding(
                    all_events,
                    i,
                    all_events[i].time,
                    all_events[i].player_index,
                    mates,
                ) && sparked_sustains(
                    all_events,
                    i + 1,
                    all_events[i].time,
                    all_events[i].player_index,
                ) {
                    let p = all_events[i].player_index;
                    all_player_stats[p].sparkedouts = all_player_stats[p].sparkedouts + 1;
                }
            }
            i = i + 1;
        }
    }
}

impl RankedStatConfig {
    /// Dispatches one fused event, exactly as `spec_ranked_step`
    /// describes.
    pub fn apply_event(
        event: &RelevantEvent,
        cap_diff: &mut isize,
        garbage_time_cap_diff: &mut isize,
        red_fc: &mut Option<usize>,
        blue_fc: &mut Option<usize>,
        red_grab_time: &mut Option<usize>,
        blue_grab_time: &mut Option<usize>,
        all_player_stats: &mut Vec<RankedPlayerStats>,
    )
        requires
            event.player_index < old(all_player_stats)@.len(),
            old(all_player_stats)@[event.player_index as int].time_ok(event.time),
            old(all_player_stats)@[event.player_index as int].counters_below(usize::MAX - 2),
            isize::MIN < *old(cap_diff) < isize::MAX,
            isize::MIN < *old(garbage_time_cap_diff) < isize::MAX,
        ensures
            (
                *final(cap_diff) as int,
                *final(garbage_time_cap_diff) as int,
                *final(red_fc),
                *final(blue_fc),
                *final(red_grab_time),
                *final(blue_grab_time),
                final(all_player_stats)@,
            ) == spec_ranked_step(
                *event,
                *old(cap_diff) as int,
                *old(garbage_time_cap_diff) as int,
                *old(red_fc),
                *old(blue_fc),
                *old(red_grab_time),
                *old(blue_grab_time),
                old(all_player_stats)@,
            ),
    {
        let idx = event.player_index;
        match event.event_type {
            Event::Capture => {
                let time = event.time;
                let cd = *cap_diff;
                let is_garbage_time = (time > 330 * 60 && (cd >= 4 || cd <= -4)) || (time > 360
                    * 60 && (cd >= 3 || cd <= -3)) || (time > 390 * 60 && (cd >= 2 || cd <= -2));
                match event.team {
                    Team::Red => {
                        *cap_diff = *cap_diff + 1;
                        if is_garbage_time && *cap_diff > 0 {
                            *garbage_time_cap_diff = *garbage_time_cap_diff + 1;
                            all_player_stats[idx].garbage_time_caps = all_player_stats[idx].garbage_time_caps
                                + 1;
                        }
                    },
                    Team::Blue => {
                        *cap_diff = *cap_diff - 1;
                        if is_garbage_time && *cap_diff < 0 {
                            *garbage_time_cap_diff = *garbage_time_cap_diff - 1;
                            all_player_stats[idx].garbage_time_caps = all_player_stats[idx].garbage_time_caps
                                + 1;
                        }
                    },
                    _ => {},
                }
                all_player_stats[idx].caps = all_player_stats[idx].caps + 1;
                all_player_stats[idx].hold_start = None;
                match event.team {
                    Team::Red => {
                        *red_fc = None;
                        *red_grab_time = None;
                    },
                    Team::Blue => {
                        *blue_fc = None;
                        *blue_grab_time = None;
                    },
                    _ => {},
                }
            },
            Event::Grab => {
                all_player_stats[idx].hold_start = Some(event.time);
                match event.team {
                    Team::Red => {
                        *red_fc = Some(event.player_index);
                        *red_grab_time = Some(event.time);
                    },
                    Team::Blue => {
                        *blue_fc = Some(event.player_index);
                        *blue_grab_time = Some(event.time);
                    },
                    _ => {},
                }
            },
            Event::Drop => {
                if let Some(hold_start) = all_player_stats[idx].hold_start {
                    all_player_stats[idx].hold = all_player_stats[idx].hold + (event.time
                        - hold_start);
                    all_player_stats[idx].hold_start = None;
                }
                match event.team {
                    Team::Red => {
                        *red_fc = None;
                        *red_grab_time = None;
                    },
                    Team::Blue => {
                        *blue_fc = None;
                        *blue_grab_time = None;
                    },
                    _ => {},
                }
            },
            Event::Return => {
                all_player_stats[idx].returns = all_player_stats[idx].returns + 1;
            },
            Event::Tag => {
                all_player_stats[idx].nrts = all_player_stats[idx].nrts + 1;
            },
            Event::Pop => {
                all_player_stats[idx].ndps = all_player_stats[idx].ndps + 1;
            },
            Event::Powerup => {
                all_player_stats[idx].pups = all_player_stats[idx].pups + 1;
            },
            Event::DuplicatePowerup => {
                all_player_stats[idx].pups = all_player_stats[idx].pups + 1;
            },
            Event::StartPrevent => {
                all_player_stats[idx].prevent_start = Some(event.time);
            },
            Event::StopPrevent => {
                if let Some(prevent_start) = all_player_stats[idx].prevent_start {
                    all_player_stats[idx].prevent = all_player_stats[idx].prevent + (event.time
                        - prevent_start);
                    all_player_stats[idx].prevent_start = None;
                }
            },
            Event::Quit => {
                if let Some(hold_start) = all_player_stats[idx].hold_start {
                    all_player_stats[idx].hold = all_player_stats[idx].hold + (event.time
                        - hold_start);
                    all_player_stats[idx].hold_start = None;
                }
                all_player_stats[idx].ndps = all_player_stats[idx].ndps + 1;
            },
            _ => {},
        }
    }
}

/// A keypop window changes nothing but keypop counts.
proof fn lemma_keypop_window_frame(
    stats: Seq<RankedPlayerStats>,
    events: Seq<RelevantEvent>,
    j: int,
    cap_time: usize,
    cap_team: Team,
)
    requires
        j < events.len(),
        forall|k: int|
            0 <= k < events.len() ==> (#[trigger] events[k]).player_index < stats.len(),
    ensures
        ({
            let r = spec_keypop_window(stats, events, j, cap_time, cap_team);
            r.len() == stats.len() && forall|p: int|
                0 <= p < stats.len() ==> #[trigger] r[p] == RankedPlayerStats {
                    keypops: r[p].keypops,
                    ..stats[p]
                }
        }),
    decreases j + 1,
{
    if j < 0 {
    } else if events[j].time < spec_sat_sub(cap_time, 120) {
    } else {
        let stats2 = if events[j].event_type == Event::Pop && ((cap_team == Team::Red && events[j].team
            == Team::Blue) || (cap_team == Team::Blue && events[j].team == Team::Red)) {
            let p = events[j].player_index as int;
            stats.update(
                p,
                RankedPlayerStats { keypops: (stats[p].keypops + 1) as usize, ..stats[p] },
            )
        } else {
            stats
        };
        lemma_keypop_window_frame(stats2, events, j - 1, cap_time, cap_team);
        let r = spec_keypop_window(stats, events, j, cap_time, cap_team);
        assert forall|p: int| 0 <= p < stats.len() implies #[trigger] r[p] == RankedPlayerStats {
            keypops: r[p].keypops,
            ..stats[p]
        } by {
            assert(r[p] == RankedPlayerStats { keypops: r[p].keypops, ..stats2[p] });
            assert(stats2[p] == RankedPlayerStats { keypops: stats2[p].keypops, ..stats[p] });
        }
    }
}

/// The keypop scan changes nothing but keypop counts.
proof fn lemma_keypops_frame(stats: Seq<RankedPlayerStats>, events: Seq<RelevantEvent>, i: int)
    requires
        forall|k: int|
            0 <= k < events.len() ==> (#[trigger] events[k]).player_index < stats.len(),
    ensures
        ({
            let r = spec_keypops(stats, events, i);
            r.len() == stats.len() && forall|p: int|
                0 <= p < stats.len() ==> #[trigger] r[p] == RankedPlayerStats {
                    keypops: r[p].keypops,
                    ..stats[p]
                }
        }),
    decreases events.len() - i,
{
    if i < 0 || i >= events.len() {
    } else {
        let stats2 = if events[i].event_type == Event::Capture {
            spec_keypop_window(stats, events, i - 1, events[i].time, events[i].team)
        } else {
            stats
        };
        lemma_keypop_window_frame(stats, events, i - 1, events[i].time, events[i].team);
        lemma_keypops_frame(stats2, events, i + 1);
    }
}

/// The handoff scan changes nothing but handoff counts.
proof fn lemma_handoffs_frame(stats: Seq<RankedPlayerStats>, events: Seq<RelevantEvent>, i: int)
    requires
        forall|k: int|
            0 <= k < events.len() ==> (#[trigger] events[k]).player_index < stats.len(),
    ensures
        ({
            let r = spec_handoffs(stats, events, i);
            r.len() == stats.len() && forall|p: int|
                0 <= p < stats.len() ==> #[trigger] r[p] == RankedPlayerStats {
                    handoffs: r[p].handoffs,
                    ..stats[p]
                }
        }),
    decreases events.len() - i,
{
    if i < 0 || i >= events.len() {
    } else {
        let stats2 = if events[i].event_type == Event::Drop {
            spec_handoff_at(stats, events, i)
        } else {
            stats
        };
        assert(stats2.len() == stats.len() && forall|p: int|
            0 <= p < stats.len() ==> #[trigger] stats2[p] == RankedPlayerStats {
                handoffs: stats2[p].handoffs,
                ..stats[p]
            });
        lemma_handoffs_frame(stats2, events, i + 1);
        let r = spec_handoffs(stats, events, i);
        assert forall|p: int| 0 <= p < stats.len() implies #[trigger] r[p] == RankedPlayerStats {
            handoffs: r[p].handoffs,
            ..stats[p]
        } by {
            assert(r[p] == RankedPlayerStats { handoffs: r[p].handoffs, ..stats2[p] });
        }
    }
}

/// The goodprevent scan changes nothing but goodprevent time.
proof fn lemma_goodprevents_frame(
    stats: Seq<RankedPlayerStats>,
    events: Seq<RelevantEvent>,
    i: int,
    red_team: Seq<usize>,
    blue_team: Seq<usize>,
)
    requires
        forall|k: int|
            0 <= k < events.len() ==> (#[trigger] events[k]).player_index < stats.len(),
    ensures
        ({
            let r = spec_goodprevents(stats, events, i, red_team, blue_team);
            r.len() == stats.len() && forall|p: int|
                0 <= p < stats.len() ==> #[trigger] r[p] == RankedPlayerStats {
                    goodprevent: r[p].goodprevent,
                    ..stats[p]
                }
        }),
    decreases events.len() - i,
{
    if i < 0 || i >= events.len() {
    } else {
        let stats2 = if events[i].event_type == Event::StartPrevent {
            let mates = if events[i].team == Team::Red {
                red_team
            } else {
                blue_team
            };
            spec_goodprevent_at(stats, events, i, mates)
        } else {
            stats
        };
        assert(stats2.len() == stats.len() && forall|p: int|
            0 <= p < stats.len() ==> #[trigger] stats2[p] == RankedPlayerStats {
                goodprevent: stats2[p].goodprevent,
                ..stats[p]
            });
        lemma_goodprevents_frame(stats2, events, i + 1, red_team, blue_team);
        let r = spec_goodprevents(stats, events, i, red_team, blue_team);
        assert forall|p: int| 0 <= p < stats.len() implies #[trigger] r[p] == RankedPlayerStats {
            goodprevent: r[p].goodprevent,
            ..stats[p]
        } by {
            assert(r[p] == RankedPlayerStats { goodprevent: r[p].goodprevent, ..stats2[p] });
        }
    }
}

/// The reset scan changes nothing but reset counts.
proof fn lemma_resets_frame(
    stats: Seq<RankedPlayerStats>,
    events: Seq<RelevantEvent>,
    i: int,
    red_team: Seq<usize>,
    blue_team: Seq<usize>,
)
    requires
        forall|k: int|
            0 <= k < events.len() ==> (#[trigger] events[k]).player_index < stats.len(),
    ensures
        ({
            let r = spec_resets(stats, events, i, red_team, blue_team);
            r.len() == stats.len() && forall|p: int|
                0 <= p < stats.len() ==> #[trigger] r[p] == RankedPlayerStats {
                    resets: r[p].resets,
                    ..stats[p]
                }
        }),
    decreases events.len() - i,
{
    if i < 0 || i >= events.len() {
    } else {
        let stats2 = if events[i].event_type == Event::Return {
            let opponents = if events[i].team == Team::Red {
                blue_team
            } else {
                red_team
            };
            if !spec_reset_answered(events, i + 1, events[i].time, opponents) {
                let p = events[i].player_index as int;
                stats.update(
                    p,
                    RankedPlayerStats { resets: (stats[p].resets + 1) as usize, ..stats[p] },
                )
            } else {
                stats
            }
        } else {
            stats
        };
        lemma_resets_frame(stats2, events, i + 1, red_team, blue_team);
    }
}

/// The badflaccid scan changes nothing but badflaccid counts.
proof fn lemma_badflaccids_frame(stats: Seq<RankedPlayerStats>, events: Seq<RelevantEvent>, i: int)
    requires
        forall|k: int|
            0 <= k < events.len() ==> (#[trigger] events[k]).player_index < stats.len(),
    ensures
        ({
            let r = spec_badflaccids(stats, events, i);
            r.len() == stats.len() && forall|p: int|
                0 <= p < stats.len() ==> #[trigger] r[p] == RankedPlayerStats {
                    badflaccids: r[p].badflaccids,
                    ..stats[p]
                }
        }),
    decreases events.len() - i,
{
    if i < 0 || i >= events.len() {
    } else {
        let stats2 = if events[i].event_type == Event::Drop {
            let hold_time: usize = match spec_last_grab_time(
                events,
                i - 1,
                events[i].player_index,
            ) {
                Some(g) => (events[i].time - g) as usize,
                None => 0,
            };
            if hold_time < 120 && spec_opposing_capture_within(
                events,
                i + 1,
                events[i].time,
                events[i].team,
            ) {
                let p = events[i].player_index as int;
                stats.update(
                    p,
                    RankedPlayerStats { badflaccids: (stats[p].badflaccids + 1) as usize, ..stats[p] },
                )
            } else {
                stats
            }
        } else {
            stats
        };
        lemma_badflaccids_frame(stats2, events, i + 1);
    }
}

impl Default for RankedPlayerStats {
    fn default() -> (r: RankedPlayerStats)
        ensures
            r.is_fresh(),
    {
        RankedPlayerStats::new()
    }
}

impl crate::analysis_types::StatConfig for RankedStatConfig {
    type Stats = RankedPlayerStats;

    open spec fn stat_inv(stats: RankedPlayerStats, time: usize) -> bool {
        stats.time_ok(time)
    }

    open spec fn stat_level(stats: RankedPlayerStats) -> int {
        stats.level()
    }

    open spec fn stat_cap() -> int {
        usize::MAX as int
    }

    open spec fn stat_is_new(stats: RankedPlayerStats) -> bool {
        stats.is_fresh()
    }

    open spec fn spec_step(
        event: RelevantEvent,
        cap_diff: int,
        garbage_time_cap_diff: int,
        red_fc: Option<usize>,
        blue_fc: Option<usize>,
        red_grab_time: Option<usize>,
        blue_grab_time: Option<usize>,
        all_player_stats: Seq<RankedPlayerStats>,
    ) -> (int, int, Option<usize>, Option<usize>, Option<usize>, Option<usize>, Seq<RankedPlayerStats>) {
        spec_ranked_step(
            event,
            cap_diff,
            garbage_time_cap_diff,
            red_fc,
            blue_fc,
            red_grab_time,
            blue_grab_time,
            all_player_stats,
        )
    }

    open spec fn spec_post(
        stats: Seq<RankedPlayerStats>,
        all_events: Seq<RelevantEvent>,
        red_team: Seq<usize>,
        blue_team: Seq<usize>,
    ) -> Seq<RankedPlayerStats> {
        let s1 = spec_keypops(stats, all_events, 0);
        let s2 = spec_handoffs(s1, all_events, 0);
        let s3 = spec_goodprevents(s2, all_events, 0, red_team, blue_team);
        let s4 = spec_resets(s3, all_events, 0, red_team, blue_team);
        let s5 = spec_badflaccids(s4, all_events, 0);
        spec_sparkedouts(s5, all_events, 0, red_team, blue_team)
    }

    open spec fn post_ready(stats: Seq<RankedPlayerStats>, all_events: Seq<RelevantEvent>) -> bool {
        all_events.len() <= SCAN_MAX_EVENTS && (forall|i: int|
            0 <= i < all_events.len() ==> (#[trigger] all_events[i]).time <= SCAN_MAX_TICK) && (
        forall|p: int|
            0 <= p < stats.len() ==> (#[trigger] stats[p]).keypops == 0 && stats[p].handoffs == 0
                && stats[p].goodprevent == 0 && stats[p].resets == 0 && stats[p].badflaccids == 0
                && stats[p].sparkedouts == 0)
    }

    proof fn stat_inv_widen(stats: RankedPlayerStats, t1: usize, t2: usize) {
    }

    open spec fn spec_relevant(e: Event) -> bool {
        e == Event::Capture || e == Event::Grab || e == Event::Drop || e == Event::Return || e
            == Event::Tag || e == Event::Pop || e == Event::Powerup || e == Event::DuplicatePowerup
            || e == Event::StartPrevent || e == Event::StopPrevent || e == Event::Quit
    }

    fn is_relevant(e: Event) -> (r: bool) {
        match e {
            Event::Capture => true,
            Event::Grab => true,
            Event::Drop => true,
            Event::Return => true,
            Event::Tag => true,
            Event::Pop => true,
            Event::Powerup => true,
            Event::DuplicatePowerup => true,
            Event::StartPrevent => true,
            Event::StopPrevent => true,
            Event::Quit => true,
            _ => false,
        }
    }

    fn new_stats() -> (r: RankedPlayerStats) {
        RankedPlayerStats::new()
    }

    fn check_post_ready(
        all_events: &Vec<RelevantEvent>,
        all_player_stats: &Vec<RankedPlayerStats>,
    ) -> (r: bool) {
        if all_events.len() > SCAN_MAX_EVENTS {
            return false;
        }
        let mut i: usize = 0;
        while i < all_events.len()
            invariant
                i <= all_events@.len(),
                forall|k: int|
                    0 <= k < i ==> (#[trigger] all_events@[k]).time <= SCAN_MAX_TICK,
            decreases all_events@.len() - i,
        {
            if all_events[i].time > SCAN_MAX_TICK {
                proof {
                    assert(all_events@[i as int].time > SCAN_MAX_TICK);
                }
                return false;
            }
            i = i + 1;
        }
        let mut p: usize = 0;
        while p < all_player_stats.len()
            invariant
                p <= all_player_stats@.len(),
                forall|k: int|
                    0 <= k < p ==> (#[trigger] all_player_stats@[k]).keypops == 0
                        && all_player_stats@[k].handoffs == 0 && all_player_stats@[k].goodprevent
                        == 0 && all_player_stats@[k].resets == 0 && all_player_stats@[k].badflaccids
                        == 0 && all_player_stats@[k].sparkedouts == 0,
            decreases all_player_stats@.len() - p,
        {
            let st = &all_player_stats[p];
            if st.keypops != 0 || st.handoffs != 0 || st.goodprevent != 0 || st.resets != 0
                || st.badflaccids != 0 || st.sparkedouts != 0 {
                return false;
            }
            p = p + 1;
        }
        true
    }

    fn process_event(
        event: &RelevantEvent,
        cap_diff: &mut isize,
        garbage_time_cap_diff: &mut isize,
        match_duration: usize,
        red_fc: &mut Option<usize>,
        blue_fc: &mut Option<usize>,
        red_grab_time: &mut Option<usize>,
        blue_grab_time: &mut Option<usize>,
        all_player_stats: &mut Vec<RankedPlayerStats>,
    ) {
        proof {
            let s = old(all_player_stats)@[event.player_index as int];
            assert(s.counters_below(usize::MAX - 2));
            lemma_ranked_step_props(
                *event,
                *old(cap_diff) as int,
                *old(garbage_time_cap_diff) as int,
                *old(red_fc),
                *old(blue_fc),
                *old(red_grab_time),
                *old(blue_grab_time),
                old(all_player_stats)@,
                usize::MAX - 2,
            );
        }
        RankedStatConfig::apply_event(
            event,
            cap_diff,
            garbage_time_cap_diff,
            red_fc,
            blue_fc,
            red_grab_time,
            blue_grab_time,
            all_player_stats,
        );
    }

    fn post_process_stats(
        all_events: &Vec<RelevantEvent>,
        all_player_stats: &mut Vec<RankedPlayerStats>,
        red_team: &Vec<usize>,
        blue_team: &Vec<usize>,
    ) {
        let ghost s0 = all_player_stats@;
        proof {
            lemma_keypops_frame(s0, all_events@, 0);
        }
        RankedStatConfig::process_keypops(all_events, all_player_stats);
        let ghost s1 = all_player_stats@;
        proof {
            lemma_handoffs_frame(s1, all_events@, 0);
        }
        RankedStatConfig::process_handoffs(all_events, all_player_stats);
        let ghost s2 = all_player_stats@;
        proof {
            lemma_goodprevents_frame(s2, all_events@, 0, red_team@, blue_team@);
        }
        RankedStatConfig::process_goodprevent(all_events, all_player_stats, red_team, blue_team);
        let ghost s3 = all_player_stats@;
        proof {
            lemma_resets_frame(s3, all_events@, 0, red_team@, blue_team@);
        }
        RankedStatConfig::process_resets(all_events, all_player_stats, red_team, blue_team);
        let ghost s4 = all_player_stats@;
        proof {
            lemma_badflaccids_frame(s4, all_events@, 0);
        }
        RankedStatConfig::process_badflaccids(all_events, all_player_stats);
        RankedStatConfig::process_sparkedouts(all_events, all_player_stats, red_team, blue_team);
    }

    open spec fn spec_csv_values(stats: RankedPlayerStats) -> Seq<Seq<char>> {
        seq![
            crate::numfmt::spec_decimal(stats.caps as nat),
            crate::numfmt::spec_decimal(stats.garbage_time_caps as nat),
            crate::numfmt::spec_decimal(stats.hold as nat),
            crate::numfmt::spec_decimal(stats.ndps as nat),
            crate::numfmt::spec_decimal(stats.returns as nat),
            crate::numfmt::spec_decimal(stats.quick_returns as nat),
            crate::numfmt::spec_decimal(stats.nrts as nat),
            crate::numfmt::spec_decimal(stats.pups as nat),
            crate::numfmt::spec_decimal(stats.keypops as nat),
            crate::numfmt::spec_decimal(stats.handoffs as nat),
            crate::numfmt::spec_decimal(stats.goodprevent as nat),
            crate::numfmt::spec_decimal(stats.resets as nat),
            crate::numfmt::spec_decimal(stats.badflaccids as nat),
            crate::numfmt::spec_decimal(stats.sparkedouts as nat),
        ]
    }

    fn to_csv_values(stats: &RankedPlayerStats) -> (cells: Vec<String>) {
        let mut cells: Vec<String> = Vec::new();
        cells.push(crate::numfmt::usize_to_string(stats.caps));
        cells.push(crate::numfmt::usize_to_string(stats.garbage_time_caps));
        cells.push(crate::numfmt::usize_to_string(stats.hold));
        cells.push(crate::numfmt::usize_to_string(stats.ndps));
        cells.push(crate::numfmt::usize_to_string(stats.returns));
        cells.push(crate::numfmt::usize_to_string(stats.quick_returns));
        cells.push(crate::numfmt::usize_to_string(stats.nrts));
        cells.push(crate::numfmt::usize_to_string(stats.pups));
        cells.push(crate::numfmt::usize_to_string(stats.keypops));
        cells.push(crate::numfmt::usize_to_string(stats.handoffs));
        cells.push(crate::numfmt::usize_to_string(stats.goodprevent));
        cells.push(crate::numfmt::usize_to_string(stats.resets));
        cells.push(crate::numfmt::usize_to_string(stats.badflaccids));
        cells.push(crate::numfmt::usize_to_string(stats.sparkedouts));
        proof {
            assert(crate::numfmt::spec_views_of(cells@) =~= Self::spec_csv_values(*stats));
        }
        cells
    }

    fn stat_fields() -> Vec<String> {
        let mut names: Vec<String> = Vec::new();
        names.push(String::from_str("caps"));
        names.push(String::from_str("garbage_time_caps"));
        names.push(String::from_str("hold"));
        names.push(String::from_str("ndps"));
        names.push(String::from_str("returns"));
        names.push(String::from_str("quick_returns"));
        names.push(String::from_str("nrts"));
        names.push(String::from_str("pups"));
        names.push(String::from_str("keypops"));
        names.push(String::from_str("handoffs"));
        names.push(String::from_str("goodprevent"));
        names.push(String::from_str("resets"));
        names.push(String::from_str("badflaccids"));
        names.push(String::from_str("sparkedouts"));
        names
    }
}

} // verus!
