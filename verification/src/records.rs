use vstd::prelude::*;

verus! {

use crate::events_reader::{Event, Team, PlayerEvent, EventsReader, clone_bytes};
use crate::analysis_types::RelevantEvent;
use crate::decode::spec_player_events;
use crate::log_reader::PlayerLog;
use crate::timeline::{spec_sorted_by_time, spec_stable_sort_by_time, stable_sort_by_time};

/// Ticks in a minimum-length ranked match.
pub const MINIMUM_RANKED_MATCH_LENGTH: usize = 10800;

/// Ticks in a minimum-length record-eligible match.
pub const MINIMUM_RECORD_MATCH_LENGTH: usize = 5400;

/// Ticks in the first eight minutes of a match.
pub const EIGHT_MINUTES: usize = 28800;

/// The largest fused timeline the record book counts; a longer one is
/// skipped so that a signed running differential always fits.
pub const MAX_TIMELINE_EVENTS: usize = 0x4000_0000;

/// One record-book entry: the match it was set in, who set it, and the
/// value.
#[derive(Debug, Clone)]
pub struct PlayerRecord {
    pub match_id: String,
    pub player_name: String,
    pub value: usize,
}

/// One player's per-match counters and time accumulations, with the open
/// intervals still being tracked.
#[derive(Debug, Clone, Copy)]
pub struct PlayerGameStats {
    pub caps: usize,
    pub returns: usize,
    pub tags: usize,
    pub pops: usize,
    pub grabs: usize,
    pub pups: usize,
    pub quick_returns: usize,
    pub flaccid_grabs: usize,
    pub hold: usize,
    pub prevent: usize,
    pub button: usize,
    pub hold_start: Option<usize>,
    pub prevent_start: Option<usize>,
    pub button_start: Option<usize>,
    pub last_grab_time: Option<usize>,
}

impl PlayerGameStats {
    /// A fresh record: every counter zero, no open interval.
    pub open spec fn spec_init() -> PlayerGameStats {
        PlayerGameStats {
            caps: 0,
            returns: 0,
            tags: 0,
            pops: 0,
            grabs: 0,
            pups: 0,
            quick_returns: 0,
            flaccid_grabs: 0,
            hold: 0,
            prevent: 0,
            button: 0,
            hold_start: None,
            prevent_start: None,
            button_start: None,
            last_grab_time: None,
        }
    }

    /// The record as it stands when the timeline has been replayed up to
    /// tick `t`: each open interval started at or before `t`, and each
    /// accumulation is bounded by the tick it was last closed at, so no
    /// close can overflow.
    pub open spec fn time_ok(self, t: usize) -> bool {
        &&& (match self.hold_start {
            Some(s) => s <= t && self.hold <= s,
            None => self.hold <= t,
        })
        &&& (match self.prevent_start {
            Some(s) => s <= t && self.prevent <= s,
            None => self.prevent <= t,
        })
        &&& (match self.button_start {
            Some(s) => s <= t && self.button <= s,
            None => self.button <= t,
        })
    }

    /// Every counter still has room to grow by `n`.
    pub open spec fn counters_below(self, b: int) -> bool {
        self.caps <= b && self.returns <= b && self.tags <= b && self.pops <= b && self.grabs <= b
            && self.pups <= b && self.quick_returns <= b && self.flaccid_grabs <= b
    }

    pub fn new() -> (r: PlayerGameStats)
        ensures
            r == PlayerGameStats::spec_init(),
    {
        PlayerGameStats {
            caps: 0,
            returns: 0,
            tags: 0,
            pops: 0,
            grabs: 0,
            pups: 0,
            quick_returns: 0,
            flaccid_grabs: 0,
            hold: 0,
            prevent: 0,
            button: 0,
            hold_start: None,
            prevent_start: None,
            button_start: None,
            last_grab_time: None,
        }
    }

    /// Closes the intervals still open at the end of a pass: each one that
    /// started before the cutoff is credited up to the earlier of the end
    /// time and the cutoff (an interval that started after that point adds
    /// nothing).
    pub open spec fn spec_finalize(self, end_time: usize, cutoff: usize) -> PlayerGameStats {
        let end: usize = if cutoff < end_time {
            cutoff
        } else {
            end_time
        };
        let h = match self.hold_start {
            Some(s) => if s < cutoff && s <= end {
                (self.hold + (end - s)) as usize
            } else {
                self.hold
            },
            None => self.hold,
        };
        let p = match self.prevent_start {
            Some(s) => if s < cutoff && s <= end {
                (self.prevent + (end - s)) as usize
            } else {
                self.prevent
            },
            None => self.prevent,
        };
        let b = match self.button_start {
            Some(s) => if s < cutoff && s <= end {
                (self.button + (end - s)) as usize
            } else {
                self.button
            },
            None => self.button,
        };
        PlayerGameStats { hold: h, prevent: p, button: b, ..self }
    }

    /// Closes the intervals still open at the end of a pass, as
    /// `spec_finalize` describes.
    pub fn finalize_time_stats(&mut self, end_time: usize, cutoff: usize)
        requires
            old(self).time_ok(usize::MAX),
        ensures
            *final(self) == old(self).spec_finalize(end_time, cutoff),
    {
        let end: usize = if cutoff < end_time {
            cutoff
        } else {
            end_time
        };
        if let Some(s) = self.hold_start {
            if s < cutoff && s <= end {
                self.hold = self.hold + (end - s);
            }
        }
        if let Some(s) = self.prevent_start {
            if s < cutoff && s <= end {
                self.prevent = self.prevent + (end - s);
            }
        }
        if let Some(s) = self.button_start {
            if s < cutoff && s <= end {
                self.button = self.button + (end - s);
            }
        }
    }
}

impl Default for PlayerGameStats {
    fn default() -> (r: PlayerGameStats)
        ensures
            r == PlayerGameStats::spec_init(),
    {
        PlayerGameStats::new()
    }
}

/// An open hold closed at `time`, credited up to the cutoff.
pub open spec fn spec_close_hold(s: PlayerGameStats, time: usize, cutoff: usize) -> PlayerGameStats {
    match s.hold_start {
        Some(hs) => {
            let end: usize = if time < cutoff {
                time
            } else {
                cutoff
            };
            let h = if hs < cutoff {
                (s.hold + (end - hs)) as usize
            } else {
                s.hold
            };
            PlayerGameStats { hold: h, hold_start: None, ..s }
        },
        None => s,
    }
}

/// An open prevent closed at `time`, credited up to the cutoff.
pub open spec fn spec_close_prevent(s: PlayerGameStats, time: usize, cutoff: usize) -> PlayerGameStats {
    match s.prevent_start {
        Some(ps) => {
            let end: usize = if time < cutoff {
                time
            } else {
                cutoff
            };
            let p = if ps < cutoff {
                (s.prevent + (end - ps)) as usize
            } else {
                s.prevent
            };
            PlayerGameStats { prevent: p, prevent_start: None, ..s }
        },
        None => s,
    }
}

/// An open button hold closed at `time`, credited up to the cutoff.
pub open spec fn spec_close_button(s: PlayerGameStats, time: usize, cutoff: usize) -> PlayerGameStats {
    match s.button_start {
        Some(bs) => {
            let end: usize = if time < cutoff {
                time
            } else {
                cutoff
            };
            let b = if bs < cutoff {
                (s.button + (end - bs)) as usize
            } else {
                s.button
            };
            PlayerGameStats { button: b, button_start: None, ..s }
        },
        None => s,
    }
}

/// What one fused event does to the acting player's record and the two
/// teams' latest grab ticks, under a cutoff tick past which events are
/// ignored. A return within two seconds of the opposing grab is a quick
/// return; a drop within two seconds of the player's own grab is a
/// flaccid grab.
pub open spec fn spec_event_step(
    event_type: Event,
    time: usize,
    stats: PlayerGameStats,
    red_grab_time: Option<usize>,
    blue_grab_time: Option<usize>,
    team: Team,
    cutoff: usize,
) -> (PlayerGameStats, Option<usize>, Option<usize>) {
    if time > cutoff {
        (stats, red_grab_time, blue_grab_time)
    } else {
        match event_type {
            Event::Capture => {
                let s1 = PlayerGameStats { caps: (stats.caps + 1) as usize, ..stats };
                let s2 = spec_close_hold(s1, time, cutoff);
                (
                    s2,
                    if team == Team::Red {
                        None
                    } else {
                        red_grab_time
                    },
                    if team == Team::Blue {
                        None
                    } else {
                        blue_grab_time
                    },
                )
            },
            Event::Grab => {
                let s1 = PlayerGameStats {
                    grabs: (stats.grabs + 1) as usize,
                    hold_start: Some(time),
                    last_grab_time: Some(time),
                    ..stats
                };
                (
                    s1,
                    if team == Team::Red {
                        Some(time)
                    } else {
                        red_grab_time
                    },
                    if team == Team::Blue {
                        Some(time)
                    } else {
                        blue_grab_time
                    },
                )
            },
            Event::Drop => {
                let s1 = PlayerGameStats { pops: (stats.pops + 1) as usize, ..stats };
                let s2 = spec_close_hold(s1, time, cutoff);
                let s3 = match stats.last_grab_time {
                    Some(g) => if time > g && time - g < 120 {
                        PlayerGameStats { flaccid_grabs: (s2.flaccid_grabs + 1) as usize, ..s2 }
                    } else {
                        s2
                    },
                    None => s2,
                };
                (
                    s3,
                    if team == Team::Red {
                        None
                    } else {
                        red_grab_time
                    },
                    if team == Team::Blue {
                        None
                    } else {
                        blue_grab_time
                    },
                )
            },
            Event::Return => {
                let s1 = PlayerGameStats {
                    returns: (stats.returns + 1) as usize,
                    tags: (stats.tags + 1) as usize,
                    ..stats
                };
                let opp = if team == Team::Red {
                    blue_grab_time
                } else if team == Team::Blue {
                    red_grab_time
                } else {
                    None
                };
                let s2 = match opp {
                    Some(g) => if time > g && time - g < 120 {
                        PlayerGameStats { quick_returns: (s1.quick_returns + 1) as usize, ..s1 }
                    } else {
                        s1
                    },
                    None => s1,
                };
                (s2, red_grab_time, blue_grab_time)
            },
            Event::Tag => (
                PlayerGameStats { tags: (stats.tags + 1) as usize, ..stats },
                red_grab_time,
                blue_grab_time,
            ),
            Event::Pop => (
                PlayerGameStats { pops: (stats.pops + 1) as usize, ..stats },
                red_grab_time,
                blue_grab_time,
            ),
            Event::Powerup => (
                PlayerGameStats { pups: (stats.pups + 1) as usize, ..stats },
                red_grab_time,
                blue_grab_time,
            ),
            Event::DuplicatePowerup => (
                PlayerGameStats { pups: (stats.pups + 1) as usize, ..stats },
                red_grab_time,
                blue_grab_time,
            ),
            Event::StartPrevent => (
                PlayerGameStats { prevent_start: Some(time), ..stats },
                red_grab_time,
                blue_grab_time,
            ),
            Event::StopPrevent => (
                spec_close_prevent(stats, time, cutoff),
                red_grab_time,
                blue_grab_time,
            ),
            Event::StartButton => (
                PlayerGameStats { button_start: Some(time), ..stats },
                red_grab_time,
                blue_grab_time,
            ),
            Event::StopButton => (
                spec_close_button(stats, time, cutoff),
                red_grab_time,
                blue_grab_time,
            ),
            Event::Quit => {
                let s1 = spec_close_hold(stats, time, cutoff);
                let s2 = spec_close_prevent(s1, time, cutoff);
                let s3 = spec_close_button(s2, time, cutoff);
                (s3, red_grab_time, blue_grab_time)
            },
            _ => (stats, red_grab_time, blue_grab_time),
        }
    }
}

/// One step keeps the record valid at the event's tick and grows each
/// counter by at most one.
pub proof fn lemma_event_step_props(
    event_type: Event,
    time: usize,
    stats: PlayerGameStats,
    red_grab_time: Option<usize>,
    blue_grab_time: Option<usize>,
    team: Team,
    cutoff: usize,
    b: int,
)
    requires
        stats.time_ok(time),
        stats.counters_below(b),
        b + 1 <= usize::MAX,
    ensures
        ({
            let (s2, rg, bg) = spec_event_step(
                event_type,
                time,
                stats,
                red_grab_time,
                blue_grab_time,
                team,
                cutoff,
            );
            s2.time_ok(time) && s2.counters_below(b + 1)
        }),
{
}

/// The timeline replayed from event `i` on: each event updates the acting
/// player's record and the grab-tick pair in turn.
pub open spec fn spec_records_replay(
    events: Seq<RelevantEvent>,
    i: int,
    stats: Seq<PlayerGameStats>,
    rg: Option<usize>,
    bg: Option<usize>,
    cutoff: usize,
) -> (Seq<PlayerGameStats>, Option<usize>, Option<usize>)
    decreases events.len() - i,
{
    if 0 <= i < events.len() {
        let e = events[i];
        let (s2, rg2, bg2) = spec_event_step(
            e.event_type,
            e.time,
            stats[e.player_index as int],
            rg,
            bg,
            e.team,
            cutoff,
        );
        spec_records_replay(events, i + 1, stats.update(e.player_index as int, s2), rg2, bg2, cutoff)
    } else {
        (stats, rg, bg)
    }
}

/// The accumulated times never exceed the crediting cutoff.
pub open spec fn accums_below(s: PlayerGameStats, c: usize) -> bool {
    s.hold <= c && s.prevent <= c && s.button <= c
}

/// One step keeps the accumulated times within the cutoff.
pub proof fn lemma_event_step_accums(
    event_type: Event,
    time: usize,
    stats: PlayerGameStats,
    red_grab_time: Option<usize>,
    blue_grab_time: Option<usize>,
    team: Team,
    cutoff: usize,
)
    requires
        stats.time_ok(time),
        accums_below(stats, cutoff),
    ensures
        accums_below(
            spec_event_step(
                event_type,
                time,
                stats,
                red_grab_time,
                blue_grab_time,
                team,
                cutoff,
            ).0,
            cutoff,
        ),
{
}

/// The running capture differential of a fused timeline prefix: red
/// captures minus blue captures.
pub open spec fn spec_cap_diff(events: Seq<RelevantEvent>, i: int) -> int
    decreases i,
{
    if i <= 0 {
        0
    } else {
        let d = spec_cap_diff(events, i - 1);
        let e = events[i - 1];
        if e.event_type == Event::Capture {
            if e.team == Team::Red {
                d + 1
            } else if e.team == Team::Blue {
                d - 1
            } else {
                d
            }
        } else {
            d
        }
    }
}

/// The running differential moves by at most one per event.
pub proof fn lemma_cap_diff_bound(events: Seq<RelevantEvent>, i: int)
    requires
        0 <= i <= events.len(),
    ensures
        -i <= spec_cap_diff(events, i) <= i,
    decreases i,
{
    if i > 0 {
        lemma_cap_diff_bound(events, i - 1);
    }
}

/// A leaderboard: rungs in strictly ascending value order, each holding
/// the items that reached that value, in arrival order.
#[derive(Debug)]
pub struct Leaderboard<T> {
    entries: Vec<(usize, Vec<T>)>,
}

impl<T> View for Leaderboard<T> {
    type V = Seq<(usize, Seq<T>)>;

    closed spec fn view(&self) -> Seq<(usize, Seq<T>)> {
        Seq::new(self.entries@.len(), |i: int| (self.entries@[i].0, self.entries@[i].1@))
    }
}

/// Rung values strictly ascending.
pub open spec fn lb_sorted<T>(s: Seq<(usize, Seq<T>)>) -> bool {
    forall|i: int, j: int| #![trigger s[i], s[j]] 0 <= i < j < s.len() ==> s[i].0 < s[j].0
}

/// A new entry folded into a leaderboard: it joins the rung with its
/// value, or founds a new rung in value order.
pub open spec fn spec_lb_insert<T>(
    s: Seq<(usize, Seq<T>)>,
    value: usize,
    item: T,
) -> Seq<(usize, Seq<T>)>
    decreases s.len(),
{
    if s.len() == 0 {
        seq![(value, seq![item])]
    } else if s.last().0 > value {
        spec_lb_insert(s.drop_last(), value, item).push(s.last())
    } else if s.last().0 == value {
        s.drop_last().push((value, s.last().1.push(item)))
    } else {
        s.push((value, seq![item]))
    }
}

/// Positional form of `spec_lb_insert` at the boundary index the in-place
/// search finds.
proof fn lemma_lb_insert_at<T>(
    s: Seq<(usize, Seq<T>)>,
    value: usize,
    item: T,
    j: int,
)
    requires
        lb_sorted(s),
        0 <= j <= s.len(),
        forall|k: int| j <= k < s.len() ==> (#[trigger] s[k]).0 > value,
        j > 0 ==> s[j - 1].0 <= value,
    ensures
        j > 0 && s[j - 1].0 == value ==> spec_lb_insert(s, value, item) == s.update(
            j - 1,
            (value, s[j - 1].1.push(item)),
        ),
        !(j > 0 && s[j - 1].0 == value) ==> spec_lb_insert(s, value, item) == s.insert(
            j,
            (value, seq![item]),
        ),
    decreases s.len(),
{
    if s.len() == 0 {
        assert(spec_lb_insert(s, value, item) =~= s.insert(0, (value, seq![item])));
    } else if s.last().0 > value {
        assert(j < s.len());
        lemma_lb_insert_at(s.drop_last(), value, item, j);
        if j > 0 && s[j - 1].0 == value {
            assert(s.drop_last().update(j - 1, (value, s[j - 1].1.push(item))).push(s.last())
                =~= s.update(j - 1, (value, s[j - 1].1.push(item))));
        } else {
            assert(s.drop_last().insert(j, (value, seq![item])).push(s.last()) =~= s.insert(
                j,
                (value, seq![item]),
            ));
        }
    } else if s.last().0 == value {
        assert(j == s.len());
        assert(s.drop_last().push((value, s.last().1.push(item))) =~= s.update(
            j - 1,
            (value, s[j - 1].1.push(item)),
        ));
    } else {
        assert(j == s.len());
        assert(s.push((value, seq![item])) =~= s.insert(j, (value, seq![item])));
    }
}

/// Insertion keeps rung values strictly ascending.
proof fn lemma_lb_insert_sorted<T>(
    s: Seq<(usize, Seq<T>)>,
    value: usize,
    item: T,
    j: int,
)
    requires
        lb_sorted(s),
        0 <= j <= s.len(),
        forall|k: int| j <= k < s.len() ==> (#[trigger] s[k]).0 > value,
        j > 0 ==> s[j - 1].0 <= value,
    ensures
        lb_sorted(spec_lb_insert(s, value, item)),
{
    lemma_lb_insert_at(s, value, item, j);
    if j > 0 && s[j - 1].0 == value {
        let r = s.update(j - 1, (value, s[j - 1].1.push(item)));
        assert forall|a: int, b: int| #![trigger r[a], r[b]] 0 <= a < b < r.len() implies r[a].0
            < r[b].0 by {}
    } else {
        let r = s.insert(j, (value, seq![item]));
        assert forall|a: int, b: int| #![trigger r[a], r[b]] 0 <= a < b < r.len() implies r[a].0
            < r[b].0 by {
            if a < j {
                assert(r[a] == s[a]);
            } else if a == j {
                assert(r[a] == (value, seq![item]));
            } else {
                assert(r[a] == s[a - 1]);
            }
            if b < j {
                assert(r[b] == s[b]);
            } else if b == j {
                assert(r[b] == (value, seq![item]));
            } else {
                assert(r[b] == s[b - 1]);
            }
        }
    }
}

impl<T> Leaderboard<T> {
    pub open spec fn wf(self) -> bool {
        lb_sorted(self@)
    }

    /// An empty leaderboard.
    pub fn new() -> (r: Leaderboard<T>)
        ensures
            r@ == Seq::<(usize, Seq<T>)>::empty(),
            r.wf(),
    {
        let r = Leaderboard { entries: Vec::new() };
        proof {
            assert(r@ =~= Seq::<(usize, Seq<T>)>::empty());
        }
        r
    }

    /// Folds one entry in, as `spec_lb_insert` describes.
    pub fn insert(&mut self, value: usize, item: T)
        requires
            old(self).wf(),
        ensures
            final(self)@ == spec_lb_insert(old(self)@, value, item),
            final(self).wf(),
    {
        let ghost s0 = self@;
        let mut j = self.entries.len();
        while j > 0 && self.entries[j - 1].0 > value
            invariant
                j <= self.entries@.len(),
                self@ == s0,
                forall|k: int| j <= k < self@.len() ==> (#[trigger] self@[k]).0 > value,
            decreases j,
        {
            proof {
                assert(self@[j - 1].0 == self.entries@[j - 1].0);
            }
            j = j - 1;
        }
        proof {
            if j > 0 {
                assert(self@[j - 1].0 == self.entries@[j - 1].0);
            }
            lemma_lb_insert_at(s0, value, item, j as int);
            lemma_lb_insert_sorted(s0, value, item, j as int);
        }
        if j > 0 && self.entries[j - 1].0 == value {
            let jj = j - 1;
            let ghost itm = item;
            let mut rung = self.entries.remove(jj);
            rung.1.push(item);
            self.entries.insert(jj, rung);
            proof {
                assert(self@ =~= s0.update(
                    j as int - 1,
                    (value, s0[j as int - 1].1.push(itm)),
                ));
            }
        } else {
            let ghost itm = item;
            let mut rung_members: Vec<T> = Vec::new();
            rung_members.push(item);
            self.entries.insert(j, (value, rung_members));
            proof {
                assert(self@ =~= s0.insert(j as int, (value, seq![itm])));
            }
        }
    }
}

/// A leaderboard keyed by a signed value: rungs in strictly ascending
/// value order.
#[derive(Debug)]
pub struct SignedLeaderboard<T> {
    entries: Vec<(isize, Vec<T>)>,
}

impl<T> View for SignedLeaderboard<T> {
    type V = Seq<(isize, Seq<T>)>;

    closed spec fn view(&self) -> Seq<(isize, Seq<T>)> {
        Seq::new(self.entries@.len(), |i: int| (self.entries@[i].0, self.entries@[i].1@))
    }
}

/// Signed rung values strictly ascending.
pub open spec fn slb_sorted<T>(s: Seq<(isize, Seq<T>)>) -> bool {
    forall|i: int, j: int| #![trigger s[i], s[j]] 0 <= i < j < s.len() ==> s[i].0 < s[j].0
}

/// A new entry folded into a signed leaderboard.
pub open spec fn spec_slb_insert<T>(s: Seq<(isize, Seq<T>)>, value: isize, item: T) -> Seq<
    (isize, Seq<T>),
>
    decreases s.len(),
{
    if s.len() == 0 {
        seq![(value, seq![item])]
    } else if s.last().0 > value {
        spec_slb_insert(s.drop_last(), value, item).push(s.last())
    } else if s.last().0 == value {
        s.drop_last().push((value, s.last().1.push(item)))
    } else {
        s.push((value, seq![item]))
    }
}

/// Positional form of `spec_slb_insert` at the boundary index the
/// in-place search finds.
proof fn lemma_slb_insert_at<T>(s: Seq<(isize, Seq<T>)>, value: isize, item: T, j: int)
    requires
        slb_sorted(s),
        0 <= j <= s.len(),
        forall|k: int| j <= k < s.len() ==> (#[trigger] s[k]).0 > value,
        j > 0 ==> s[j - 1].0 <= value,
    ensures
        j > 0 && s[j - 1].0 == value ==> spec_slb_insert(s, value, item) == s.update(
            j - 1,
            (value, s[j - 1].1.push(item)),
        ),
        !(j > 0 && s[j - 1].0 == value) ==> spec_slb_insert(s, value, item) == s.insert(
            j,
            (value, seq![item]),
        ),
    decreases s.len(),
{
    if s.len() == 0 {
        assert(spec_slb_insert(s, value, item) =~= s.insert(0, (value, seq![item])));
    } else if s.last().0 > value {
        assert(j < s.len());
        lemma_slb_insert_at(s.drop_last(), value, item, j);
        if j > 0 && s[j - 1].0 == value {
            assert(s.drop_last().update(j - 1, (value, s[j - 1].1.push(item))).push(s.last())
                =~= s.update(j - 1, (value, s[j - 1].1.push(item))));
        } else {
            assert(s.drop_last().insert(j, (value, seq![item])).push(s.last()) =~= s.insert(
                j,
                (value, seq![item]),
            ));
        }
    } else if s.last().0 == value {
        assert(j == s.len());
        assert(s.drop_last().push((value, s.last().1.push(item))) =~= s.update(
            j - 1,
            (value, s[j - 1].1.push(item)),
        ));
    } else {
        assert(j == s.len());
        assert(s.push((value, seq![item])) =~= s.insert(j, (value, seq![item])));
    }
}

/// Signed insertion keeps rung values strictly ascending.
proof fn lemma_slb_insert_sorted<T>(s: Seq<(isize, Seq<T>)>, value: isize, item: T, j: int)
    requires
        slb_sorted(s),
        0 <= j <= s.len(),
        forall|k: int| j <= k < s.len() ==> (#[trigger] s[k]).0 > value,
        j > 0 ==> s[j - 1].0 <= value,
    ensures
        slb_sorted(spec_slb_insert(s, value, item)),
{
    lemma_slb_insert_at(s, value, item, j);
    if j > 0 && s[j - 1].0 == value {
        let r = s.update(j - 1, (value, s[j - 1].1.push(item)));
        assert forall|a: int, b: int| #![trigger r[a], r[b]] 0 <= a < b < r.len() implies r[a].0
            < r[b].0 by {}
    } else {
        let r = s.insert(j, (value, seq![item]));
        assert forall|a: int, b: int| #![trigger r[a], r[b]] 0 <= a < b < r.len() implies r[a].0
            < r[b].0 by {
            if a < j {
                assert(r[a] == s[a]);
            } else if a == j {
                assert(r[a] == (value, seq![item]));
            } else {
                assert(r[a] == s[a - 1]);
            }
            if b < j {
                assert(r[b] == s[b]);
            } else if b == j {
                assert(r[b] == (value, seq![item]));
            } else {
                assert(r[b] == s[b - 1]);
            }
        }
    }
}

impl<T> SignedLeaderboard<T> {
    pub open spec fn wf(self) -> bool {
        slb_sorted(self@)
    }

    /// An empty signed leaderboard.
    pub fn new() -> (r: SignedLeaderboard<T>)
        ensures
            r@ == Seq::<(isize, Seq<T>)>::empty(),
            r.wf(),
    {
        let r = SignedLeaderboard { entries: Vec::new() };
        proof {
            assert(r@ =~= Seq::<(isize, Seq<T>)>::empty());
        }
        r
    }

    /// Folds one entry in, as `spec_slb_insert` describes.
    pub fn insert(&mut self, value: isize, item: T)
        requires
            old(self).wf(),
        ensures
            final(self)@ == spec_slb_insert(old(self)@, value, item),
            final(self).wf(),
    {
        let ghost s0 = self@;
        let mut j = self.entries.len();
        while j > 0 && self.entries[j - 1].0 > value
            invariant
                j <= self.entries@.len(),
                self@ == s0,
                forall|k: int| j <= k < self@.len() ==> (#[trigger] self@[k]).0 > value,
            decreases j,
        {
            proof {
                assert(self@[j - 1].0 == self.entries@[j - 1].0);
            }
            j = j - 1;
        }
        proof {
            if j > 0 {
                assert(self@[j - 1].0 == self.entries@[j - 1].0);
            }
            lemma_slb_insert_at(s0, value, item, j as int);
            lemma_slb_insert_sorted(s0, value, item, j as int);
        }
        if j > 0 && self.entries[j - 1].0 == value {
            let jj = j - 1;
            let ghost itm = item;
            let mut rung = self.entries.remove(jj);
            rung.1.push(item);
            self.entries.insert(jj, rung);
            proof {
                assert(self@ =~= s0.update(j as int - 1, (value, s0[j as int - 1].1.push(itm))));
            }
        } else {
            let ghost itm = item;
            let mut rung_members: Vec<T> = Vec::new();
            rung_members.push(item);
            self.entries.insert(j, (value, rung_members));
            proof {
                assert(self@ =~= s0.insert(j as int, (value, seq![itm])));
            }
        }
    }
}

/// The items of one rung turned into ranked rows, in arrival order.
pub open spec fn spec_push_ranked(
    acc: Seq<(String, String, usize, bool)>,
    items: Seq<(String, String)>,
    j: int,
    value: usize,
    is_win: bool,
) -> Seq<(String, String, usize, bool)>
    decreases items.len() - j,
{
    if j < 0 || j >= items.len() {
        acc
    } else {
        spec_push_ranked(
            acc.push((items[j].0, items[j].1, value, is_win)),
            items,
            j + 1,
            value,
            is_win,
        )
    }
}

/// The top rungs of a leaderboard, highest value first: rungs whose rank
/// is within the first `n`, zero values skipped, whole rungs kept.
/// `i` rungs remain to visit, `rank` is the rank of the next one taken.
pub open spec fn spec_top_ranked(
    s: Seq<(usize, Seq<(String, String)>)>,
    i: int,
    rank: nat,
    n: nat,
    is_win: bool,
    acc: Seq<(String, String, usize, bool)>,
) -> Seq<(String, String, usize, bool)>
    decreases i,
{
    if i <= 0 {
        acc
    } else {
        let e = s[i - 1];
        if e.0 == 0 {
            spec_top_ranked(s, i - 1, rank, n, is_win, acc)
        } else if rank > n {
            acc
        } else {
            spec_top_ranked(
                s,
                i - 1,
                rank + e.1.len(),
                n,
                is_win,
                spec_push_ranked(acc, e.1, 0, e.0, is_win),
            )
        }
    }
}

impl Leaderboard<(String, String)> {
    /// The rungs within the top `n` ranks, highest value first, zero
    /// values skipped, each rung tagged with win or loss status.
    pub fn get_top_n_with_status(&self, n: usize, is_win: bool) -> (r: Vec<
        (String, String, usize, bool),
    >)
        requires
            n < usize::MAX,
        ensures
            r@ == spec_top_ranked(self@, self@.len() as int, 1, n as nat, is_win, Seq::empty()),
    {
        let mut results: Vec<(String, String, usize, bool)> = Vec::new();
        let mut current_rank: usize = 1;
        let ghost mut grank: nat = 1;
        let mut i = self.entries.len();
        let ghost whole = spec_top_ranked(self@, self@.len() as int, 1, n as nat, is_win, Seq::empty());
        loop
            invariant_except_break
                n < usize::MAX,
                i <= self.entries@.len(),
                grank >= 1,
                current_rank as nat == if grank <= usize::MAX {
                    grank
                } else {
                    usize::MAX as nat
                },
                spec_top_ranked(self@, i as int, grank, n as nat, is_win, results@) == whole,
            ensures
                results@ == whole,
            decreases i,
        {
            if i == 0 {
                break ;
            }
            proof {
                assert(self@[i - 1].0 == self.entries@[i as int - 1].0);
                assert(self@[i - 1].1 == self.entries@[i as int - 1].1@);
            }
            let value = self.entries[i - 1].0;
            if value == 0 {
                i = i - 1;
                continue ;
            }
            if current_rank > n {
                break ;
            }
            let ghost items = self@[i - 1].1;
            let ghost res0 = results@;
            let mut k: usize = 0;
            let rung_len = self.entries[i - 1].1.len();
            while k < rung_len
                invariant
                    k <= rung_len,
                    i >= 1,
                    i <= self.entries@.len(),
                    rung_len == self.entries@[i as int - 1].1@.len(),
                    items == self.entries@[i as int - 1].1@,
                    value == self.entries@[i as int - 1].0,
                    spec_push_ranked(results@, items, k as int, value, is_win)
                        == spec_push_ranked(res0, items, 0, value, is_win),
                decreases rung_len - k,
            {
                let pair = &self.entries[i - 1].1[k];
                results.push((pair.0.clone(), pair.1.clone(), value, is_win));
                k = k + 1;
            }
            proof {
                grank = grank + items.len();
            }
            current_rank = if current_rank <= usize::MAX - rung_len {
                current_rank + rung_len
            } else {
                usize::MAX
            };
            i = i - 1;
        }
        results
    }
}

/// The fresh records a replay starts from.
pub open spec fn spec_init_stats(n: nat) -> Seq<PlayerGameStats> {
    Seq::new(n, |p: int| PlayerGameStats::spec_init())
}

/// Replays a whole time-sorted fused timeline over fresh records, as
/// `spec_records_replay` describes, starting with no flag carried on
/// either side.
pub fn replay_all(events: &Vec<RelevantEvent>, n_players: usize, cutoff: usize) -> (stats: Vec<
    PlayerGameStats,
>)
    requires
        spec_sorted_by_time(events@),
        forall|i: int|
            0 <= i < events@.len() ==> (#[trigger] events@[i]).player_index < n_players,
    ensures
        stats@ == spec_records_replay(
            events@,
            0,
            spec_init_stats(n_players as nat),
            None,
            None,
            cutoff,
        ).0,
        stats@.len() == n_players,
        forall|p: int|
            0 <= p < n_players ==> (#[trigger] stats@[p]).time_ok(usize::MAX) && stats@[p].counters_below(
                events@.len() as int,
            ) && accums_below(stats@[p], cutoff),
{
    let mut stats: Vec<PlayerGameStats> = Vec::new();
    let mut p: usize = 0;
    while p < n_players
        invariant
            p <= n_players,
            stats@.len() == p,
            forall|q: int| 0 <= q < p ==> stats@[q] == PlayerGameStats::spec_init(),
        decreases n_players - p,
    {
        stats.push(PlayerGameStats::new());
        p = p + 1;
    }
    proof {
        assert(stats@ =~= spec_init_stats(n_players as nat));
    }
    let ghost init = stats@;
    let mut rg: Option<usize> = None;
    let mut bg: Option<usize> = None;
    let mut i: usize = 0;
    while i < events.len()
        invariant
            i <= events@.len(),
            stats@.len() == n_players,
            spec_sorted_by_time(events@),
            forall|k: int|
                0 <= k < events@.len() ==> (#[trigger] events@[k]).player_index < n_players,
            spec_records_replay(events@, i as int, stats@, rg, bg, cutoff)
                == spec_records_replay(events@, 0, init, None, None, cutoff),
            forall|q: int|
                0 <= q < n_players ==> (#[trigger] stats@[q]).time_ok(
                    if i == 0 {
                        0
                    } else {
                        events@[i - 1].time
                    },
                ) && stats@[q].counters_below(i as int) && accums_below(stats@[q], cutoff),
        decreases events@.len() - i,
    {
        let e = events[i];
        proof {
            let tf: usize = if i == 0 {
                0
            } else {
                events@[i as int - 1].time
            };
            assert(tf <= e.time);
            assert(forall|q: int|
                0 <= q < n_players ==> (#[trigger] stats@[q]).time_ok(e.time));
            lemma_event_step_props(
                e.event_type,
                e.time,
                stats@[e.player_index as int],
                rg,
                bg,
                e.team,
                cutoff,
                i as int,
            );
            lemma_event_step_accums(
                e.event_type,
                e.time,
                stats@[e.player_index as int],
                rg,
                bg,
                e.team,
                cutoff,
            );
        }
        RecordsCollector::process_event_static(
            e.event_type,
            e.time,
            &mut stats[e.player_index],
            &mut rg,
            &mut bg,
            e.team,
            cutoff,
        );
        i = i + 1;
    }
    stats
}

/// Closes every record's open intervals, as `spec_finalize` describes.
pub fn finalize_all(stats: &mut Vec<PlayerGameStats>, end_time: usize, cutoff: usize)
    requires
        forall|p: int|
            0 <= p < old(stats)@.len() ==> (#[trigger] old(stats)@[p]).time_ok(usize::MAX),
    ensures
        final(stats)@.len() == old(stats)@.len(),
        forall|p: int|
            0 <= p < old(stats)@.len() ==> (#[trigger] final(stats)@[p]) == old(
                stats,
            )@[p].spec_finalize(end_time, cutoff),
{
    let mut p: usize = 0;
    while p < stats.len()
        invariant
            p <= stats@.len(),
            stats@.len() == old(stats)@.len(),
            forall|q: int|
                0 <= q < old(stats)@.len() ==> (#[trigger] old(stats)@[q]).time_ok(usize::MAX),
            forall|q: int|
                p <= q < stats@.len() ==> (#[trigger] stats@[q]) == old(stats)@[q],
            forall|q: int|
                0 <= q < p ==> (#[trigger] stats@[q]) == old(stats)@[q].spec_finalize(
                    end_time,
                    cutoff,
                ),
        decreases stats@.len() - p,
    {
        stats[p].finalize_time_stats(end_time, cutoff);
        p = p + 1;
    }
}

/// One leaderboard per tracked player stat, plus the conditional boards.
#[derive(Debug)]
pub struct StatLeaderboards {
    pub caps: Leaderboard<(String, String)>,
    pub returns: Leaderboard<(String, String)>,
    pub tags: Leaderboard<(String, String)>,
    pub pops: Leaderboard<(String, String)>,
    pub grabs: Leaderboard<(String, String)>,
    pub hold: Leaderboard<(String, String)>,
    pub prevent: Leaderboard<(String, String)>,
    pub button: Leaderboard<(String, String)>,
    pub pups: Leaderboard<(String, String)>,
    pub quick_returns: Leaderboard<(String, String)>,
    pub flaccid_grabs: Leaderboard<(String, String)>,
    pub tags_no_pops: Leaderboard<(String, String)>,
    pub returns_no_grabs: Leaderboard<(String, String)>,
    pub hold_no_returns: Leaderboard<(String, String)>,
    pub caps_no_returns: Leaderboard<(String, String)>,
}

impl StatLeaderboards {
    pub open spec fn wf(self) -> bool {
        self.caps.wf() && self.returns.wf() && self.tags.wf() && self.pops.wf() && self.grabs.wf()
            && self.hold.wf() && self.prevent.wf() && self.button.wf() && self.pups.wf()
            && self.quick_returns.wf() && self.flaccid_grabs.wf() && self.tags_no_pops.wf()
            && self.returns_no_grabs.wf() && self.hold_no_returns.wf() && self.caps_no_returns.wf()
    }

    pub open spec fn is_empty(self) -> bool {
        self.caps@ == Seq::<(usize, Seq<(String, String)>)>::empty() && self.returns@ == Seq::<
            (usize, Seq<(String, String)>),
        >::empty() && self.tags@ == Seq::<(usize, Seq<(String, String)>)>::empty() && self.pops@
            == Seq::<(usize, Seq<(String, String)>)>::empty() && self.grabs@ == Seq::<
            (usize, Seq<(String, String)>),
        >::empty() && self.hold@ == Seq::<(usize, Seq<(String, String)>)>::empty() && self.prevent@
            == Seq::<(usize, Seq<(String, String)>)>::empty() && self.button@ == Seq::<
            (usize, Seq<(String, String)>),
        >::empty() && self.pups@ == Seq::<(usize, Seq<(String, String)>)>::empty()
            && self.quick_returns@ == Seq::<(usize, Seq<(String, String)>)>::empty()
            && self.flaccid_grabs@ == Seq::<(usize, Seq<(String, String)>)>::empty()
            && self.tags_no_pops@ == Seq::<(usize, Seq<(String, String)>)>::empty()
            && self.returns_no_grabs@ == Seq::<(usize, Seq<(String, String)>)>::empty()
            && self.hold_no_returns@ == Seq::<(usize, Seq<(String, String)>)>::empty()
            && self.caps_no_returns@ == Seq::<(usize, Seq<(String, String)>)>::empty()
    }

    /// A full set of empty leaderboards.
    pub fn new() -> (r: StatLeaderboards)
        ensures
            r.wf(),
            r.is_empty(),
    {
        StatLeaderboards {
            caps: Leaderboard::new(),
            returns: Leaderboard::new(),
            tags: Leaderboard::new(),
            pops: Leaderboard::new(),
            grabs: Leaderboard::new(),
            hold: Leaderboard::new(),
            prevent: Leaderboard::new(),
            button: Leaderboard::new(),
            pups: Leaderboard::new(),
            quick_returns: Leaderboard::new(),
            flaccid_grabs: Leaderboard::new(),
            tags_no_pops: Leaderboard::new(),
            returns_no_grabs: Leaderboard::new(),
            hold_no_returns: Leaderboard::new(),
            caps_no_returns: Leaderboard::new(),
        }
    }
}

/// The all-time record book: one leaderboard set for the whole game and
/// one for the first eight minutes, each split into all, wins and losses.
#[derive(Debug)]
pub struct RecordsCollector {
    pub full_all: StatLeaderboards,
    pub full_wins: StatLeaderboards,
    pub full_losses: StatLeaderboards,
    pub first8_all: StatLeaderboards,
    pub first8_wins: StatLeaderboards,
    pub first8_losses: StatLeaderboards,
}

impl RecordsCollector {
    pub open spec fn wf(self) -> bool {
        self.full_all.wf() && self.full_wins.wf() && self.full_losses.wf() && self.first8_all.wf()
            && self.first8_wins.wf() && self.first8_losses.wf()
    }

    /// An empty record book.
    pub fn new() -> (r: RecordsCollector)
        ensures
            r.wf(),
            r.full_all.is_empty(),
            r.full_wins.is_empty(),
            r.full_losses.is_empty(),
            r.first8_all.is_empty(),
            r.first8_wins.is_empty(),
            r.first8_losses.is_empty(),
    {
        RecordsCollector {
            full_all: StatLeaderboards::new(),
            full_wins: StatLeaderboards::new(),
            full_losses: StatLeaderboards::new(),
            first8_all: StatLeaderboards::new(),
            first8_wins: StatLeaderboards::new(),
            first8_losses: StatLeaderboards::new(),
        }
    }

    /// Folds one entry into one board, as `spec_lb_insert` describes.
    pub fn insert_record(
        map: &mut Leaderboard<(String, String)>,
        match_id: String,
        player_name: String,
        value: usize,
    )
        requires
            old(map).wf(),
        ensures
            final(map)@ == spec_lb_insert(old(map)@, value, (match_id, player_name)),
            final(map).wf(),
    {
        map.insert(value, (match_id, player_name));
    }

    /// Folds one entry into the all-matches board and into the win or
    /// loss board that matches the outcome.
    pub fn insert_with_win_loss(
        all_board: &mut Leaderboard<(String, String)>,
        win_board: &mut Leaderboard<(String, String)>,
        loss_board: &mut Leaderboard<(String, String)>,
        match_id: String,
        player_name: String,
        value: usize,
        is_win: bool,
    )
        requires
            old(all_board).wf(),
            old(win_board).wf(),
            old(loss_board).wf(),
        ensures
            final(all_board)@ == spec_lb_insert(
                old(all_board)@,
                value,
                (match_id, player_name),
            ),
            final(win_board)@ == if is_win {
                spec_lb_insert(old(win_board)@, value, (match_id, player_name))
            } else {
                old(win_board)@
            },
            final(loss_board)@ == if is_win {
                old(loss_board)@
            } else {
                spec_lb_insert(old(loss_board)@, value, (match_id, player_name))
            },
            final(all_board).wf(),
            final(win_board).wf(),
            final(loss_board).wf(),
    {
        Self::insert_record(all_board, match_id.clone(), player_name.clone(), value);
        if is_win {
            Self::insert_record(win_board, match_id, player_name, value);
        } else {
            Self::insert_record(loss_board, match_id, player_name, value);
        }
    }

    /// The rungs within the top `n` ranks of one board, tagged with the
    /// given outcome status.
    pub fn get_top_n_with_status(
        map: &Leaderboard<(String, String)>,
        n: usize,
        is_win: bool,
    ) -> (r: Vec<(String, String, usize, bool)>)
        requires
            n < usize::MAX,
        ensures
            r@ == spec_top_ranked(map@, map@.len() as int, 1, n as nat, is_win, Seq::empty()),
    {
        map.get_top_n_with_status(n, is_win)
    }
}

impl RecordsCollector {
    /// Dispatches one fused event against one player's record and the
    /// grab-tick pair, exactly as `spec_event_step` describes.
    pub fn process_event_static(
        event_type: Event,
        time: usize,
        stats: &mut PlayerGameStats,
        red_grab_time: &mut Option<usize>,
        blue_grab_time: &mut Option<usize>,
        team: Team,
        cutoff: usize,
    )
        requires
            old(stats).time_ok(time),
            old(stats).counters_below(usize::MAX - 1),
        ensures
            (*final(stats), *final(red_grab_time), *final(blue_grab_time)) == spec_event_step(
                event_type,
                time,
                *old(stats),
                *old(red_grab_time),
                *old(blue_grab_time),
                team,
                cutoff,
            ),
    {
        if time > cutoff {
            return ;
        }
        match event_type {
            Event::Capture => {
                stats.caps = stats.caps + 1;
                if let Some(hold_start) = stats.hold_start {
                    let end_time: usize = if time < cutoff {
                        time
                    } else {
                        cutoff
                    };
                    if hold_start < cutoff {
                        stats.hold = stats.hold + (end_time - hold_start);
                    }
                    stats.hold_start = None;
                }
                match team {
                    Team::Red => {
                        *red_grab_time = None;
                    },
                    Team::Blue => {
                        *blue_grab_time = None;
                    },
                    _ => {},
                }
            },
            Event::Grab => {
                stats.grabs = stats.grabs + 1;
                stats.hold_start = Some(time);
                stats.last_grab_time = Some(time);
                match team {
                    Team::Red => {
                        *red_grab_time = Some(time);
                    },
                    Team::Blue => {
                        *blue_grab_time = Some(time);
                    },
                    _ => {},
                }
            },
            Event::Drop => {
                stats.pops = stats.pops + 1;
                let pre_grab = stats.last_grab_time;
                if let Some(hold_start) = stats.hold_start {
                    let end_time: usize = if time < cutoff {
                        time
                    } else {
                        cutoff
                    };
                    if hold_start < cutoff {
                        stats.hold = stats.hold + (end_time - hold_start);
                    }
                    stats.hold_start = None;
                }
                if let Some(grab_time) = pre_grab {
                    if time > grab_time && time - grab_time < 120 {
                        stats.flaccid_grabs = stats.flaccid_grabs + 1;
                    }
                }
                match team {
                    Team::Red => {
                        *red_grab_time = None;
                    },
                    Team::Blue => {
                        *blue_grab_time = None;
                    },
                    _ => {},
                }
            },
            Event::Return => {
                stats.returns = stats.returns + 1;
                stats.tags = stats.tags + 1;
                let opponent_grab_time = match team {
                    Team::Red => *blue_grab_time,
                    Team::Blue => *red_grab_time,
                    _ => None,
                };
                if let Some(grab_time) = opponent_grab_time {
                    if time > grab_time && time - grab_time < 120 {
                        stats.quick_returns = stats.quick_returns + 1;
                    }
                }
            },
            Event::Tag => {
                stats.tags = stats.tags + 1;
            },
            Event::Pop => {
                stats.pops = stats.pops + 1;
            },
            Event::Powerup => {
                stats.pups = stats.pups + 1;
            },
            Event::DuplicatePowerup => {
                stats.pups = stats.pups + 1;
            },
            Event::StartPrevent => {
                stats.prevent_start = Some(time);
            },
            Event::StopPrevent => {
                if let Some(prevent_start) = stats.prevent_start {
                    let end_time: usize = if time < cutoff {
                        time
                    } else {
                        cutoff
                    };
                    if prevent_start < cutoff {
                        stats.prevent = stats.prevent + (end_time - prevent_start);
                    }
                    stats.prevent_start = None;
                }
            },
            Event::StartButton => {
                stats.button_start = Some(time);
            },
            Event::StopButton => {
                if let Some(button_start) = stats.button_start {
                    let end_time: usize = if time < cutoff {
                        time
                    } else {
                        cutoff
                    };
                    if button_start < cutoff {
                        stats.button = stats.button + (end_time - button_start);
                    }
                    stats.button_start = None;
                }
            },
            Event::Quit => {
                if let Some(hold_start) = stats.hold_start {
                    let end_time: usize = if time < cutoff {
                        time
                    } else {
                        cutoff
                    };
                    if hold_start < cutoff {
                        stats.hold = stats.hold + (end_time - hold_start);
                    }
                    stats.hold_start = None;
                }
                if let Some(prevent_start) = stats.prevent_start {
                    let end_time: usize = if time < cutoff {
                        time
                    } else {
                        cutoff
                    };
                    if prevent_start < cutoff {
                        stats.prevent = stats.prevent + (end_time - prevent_start);
                    }
                    stats.prevent_start = None;
                }
                if let Some(button_start) = stats.button_start {
                    let end_time: usize = if time < cutoff {
                        time
                    } else {
                        cutoff
                    };
                    if button_start < cutoff {
                        stats.button = stats.button + (end_time - button_start);
                    }
                    stats.button_start = None;
                }
            },
            _ => {},
        }
    }

    /// Dispatches one fused event, exactly as `process_event_static` does.
    pub fn process_event(
        &self,
        event_type: Event,
        time: usize,
        stats: &mut PlayerGameStats,
        red_grab_time: &mut Option<usize>,
        blue_grab_time: &mut Option<usize>,
        team: Team,
        cutoff: usize,
    )
        requires
            old(stats).time_ok(time),
            old(stats).counters_below(usize::MAX - 1),
        ensures
            (*final(stats), *final(red_grab_time), *final(blue_grab_time)) == spec_event_step(
                event_type,
                time,
                *old(stats),
                *old(red_grab_time),
                *old(blue_grab_time),
                team,
                cutoff,
            ),
    {
        Self::process_event_static(
            event_type,
            time,
            stats,
            red_grab_time,
            blue_grab_time,
            team,
            cutoff,
        );
    }
}

/// One player's decoded events turned into fused-timeline entries, in
/// emission order, keeping only ticks at or below `limit` and tagging
/// each entry with the player's index and starting team.
pub open spec fn spec_push_player_events(
    acc: Seq<RelevantEvent>,
    events: Seq<PlayerEvent>,
    j: int,
    idx: usize,
    team: Team,
    limit: usize,
) -> Seq<RelevantEvent>
    decreases events.len() - j,
{
    if j < 0 || j >= events.len() {
        acc
    } else {
        let e = events[j];
        let acc2 = if e.time <= limit {
            acc.push(RelevantEvent { time: e.time, event_type: e.event_type, player_index: idx, team })
        } else {
            acc
        };
        spec_push_player_events(acc2, events, j + 1, idx, team, limit)
    }
}

/// Every player's decoded stream collected into one unsorted event list,
/// player by player.
pub open spec fn spec_collect_events(
    acc: Seq<RelevantEvent>,
    players: Seq<PlayerLog>,
    i: int,
    duration: usize,
    limit: usize,
) -> Seq<RelevantEvent>
    decreases players.len() - i,
{
    if i < 0 || i >= players.len() {
        acc
    } else {
        let team = crate::log_reader::spec_team_of_code(players[i].team);
        let evs = spec_player_events(players[i].events@, team, duration);
        spec_collect_events(
            spec_push_player_events(acc, evs, 0, i as usize, team, limit),
            players,
            i + 1,
            duration,
            limit,
        )
    }
}

/// Appends one player's decoded events to an event list, keeping only
/// ticks at or below `limit`, as `spec_push_player_events` describes.
pub fn push_player_events(
    acc: &mut Vec<RelevantEvent>,
    evs: &Vec<PlayerEvent>,
    idx: usize,
    team: Team,
    limit: usize,
)
    ensures
        final(acc)@ == spec_push_player_events(old(acc)@, evs@, 0, idx, team, limit),
        old(acc)@.len() <= final(acc)@.len(),
        forall|k: int| 0 <= k < old(acc)@.len() ==> (#[trigger] final(acc)@[k]) == old(acc)@[k],
        forall|k: int|
            old(acc)@.len() <= k < final(acc)@.len() ==> (#[trigger] final(acc)@[k]).player_index
                == idx && final(acc)@[k].time <= limit,
{
    let mut j: usize = 0;
    while j < evs.len()
        invariant
            j <= evs@.len(),
            spec_push_player_events(acc@, evs@, j as int, idx, team, limit)
                == spec_push_player_events(old(acc)@, evs@, 0, idx, team, limit),
            old(acc)@.len() <= acc@.len(),
            forall|k: int| 0 <= k < old(acc)@.len() ==> (#[trigger] acc@[k]) == old(acc)@[k],
            forall|k: int|
                old(acc)@.len() <= k < acc@.len() ==> (#[trigger] acc@[k]).player_index == idx
                    && acc@[k].time <= limit,
        decreases evs@.len() - j,
    {
        let e = evs[j];
        if e.time <= limit {
            acc.push(
                RelevantEvent { time: e.time, event_type: e.event_type, player_index: idx, team },
            );
        }
        j = j + 1;
    }
}

/// Collects every player's decoded stream twice: the whole match, and the
/// prefix of ticks within the first eight minutes.
pub fn collect_records_events(players: &Vec<PlayerLog>, duration: usize) -> (r: (
    Vec<RelevantEvent>,
    Vec<RelevantEvent>,
))
    requires
        forall|p: int|
            0 <= p < players@.len() ==> 8 * (#[trigger] players@[p]).events@.len() <= usize::MAX,
    ensures
        r.0@ == spec_collect_events(Seq::empty(), players@, 0, duration, usize::MAX),
        r.1@ == spec_collect_events(Seq::empty(), players@, 0, duration, EIGHT_MINUTES),
        forall|k: int|
            0 <= k < r.0@.len() ==> (#[trigger] r.0@[k]).player_index < players@.len(),
        forall|k: int|
            0 <= k < r.1@.len() ==> (#[trigger] r.1@[k]).player_index < players@.len(),
{
    let mut all: Vec<RelevantEvent> = Vec::new();
    let mut first8: Vec<RelevantEvent> = Vec::new();
    let mut i: usize = 0;
    while i < players.len()
        invariant
            i <= players@.len(),
            forall|p: int|
                0 <= p < players@.len() ==> 8 * (#[trigger] players@[p]).events@.len()
                    <= usize::MAX,
            spec_collect_events(all@, players@, i as int, duration, usize::MAX)
                == spec_collect_events(Seq::empty(), players@, 0, duration, usize::MAX),
            spec_collect_events(first8@, players@, i as int, duration, EIGHT_MINUTES)
                == spec_collect_events(Seq::empty(), players@, 0, duration, EIGHT_MINUTES),
            forall|k: int| 0 <= k < all@.len() ==> (#[trigger] all@[k]).player_index < players@.len(),
            forall|k: int|
                0 <= k < first8@.len() ==> (#[trigger] first8@[k]).player_index < players@.len(),
        decreases players@.len() - i,
    {
        let team = crate::log_reader::team_of_code(players[i].team);
        let mut reader = EventsReader::new(clone_bytes(&players[i].events));
        let evs = reader.player_events(team, duration);
        push_player_events(&mut all, &evs, i, team, usize::MAX);
        push_player_events(&mut first8, &evs, i, team, EIGHT_MINUTES);
        i = i + 1;
    }
    (all, first8)
}

/// The team of the first join event of a decoded stream, or the fallback
/// when the stream holds none.
pub open spec fn spec_join_team(events: Seq<PlayerEvent>, j: int, fallback: Team) -> Team
    decreases events.len() - j,
{
    if j < 0 || j >= events.len() {
        fallback
    } else if events[j].event_type == Event::Join {
        events[j].team
    } else {
        spec_join_team(events, j + 1, fallback)
    }
}

/// The team of the first join event of a decoded stream, or the fallback
/// when the stream holds none.
pub fn join_team(events: &Vec<PlayerEvent>, fallback: Team) -> (r: Team)
    ensures
        r == spec_join_team(events@, 0, fallback),
{
    let mut j: usize = 0;
    while j < events.len()
        invariant
            j <= events@.len(),
            spec_join_team(events@, j as int, fallback) == spec_join_team(events@, 0, fallback),
        decreases events@.len() - j,
    {
        if matches!(events[j].event_type, Event::Join) {
            return events[j].team;
        }
        j = j + 1;
    }
    fallback
}

/// Every record with its open intervals closed.
pub open spec fn spec_finalize_seq(s: Seq<PlayerGameStats>, end_time: usize, cutoff: usize) -> Seq<
    PlayerGameStats,
> {
    Seq::new(s.len(), |p: int| s[p].spec_finalize(end_time, cutoff))
}

/// The pure value of one leaderboard set: each board's rungs.
pub ghost struct BoardsView {
    pub caps: Seq<(usize, Seq<(String, String)>)>,
    pub returns: Seq<(usize, Seq<(String, String)>)>,
    pub tags: Seq<(usize, Seq<(String, String)>)>,
    pub pops: Seq<(usize, Seq<(String, String)>)>,
    pub grabs: Seq<(usize, Seq<(String, String)>)>,
    pub hold: Seq<(usize, Seq<(String, String)>)>,
    pub prevent: Seq<(usize, Seq<(String, String)>)>,
    pub button: Seq<(usize, Seq<(String, String)>)>,
    pub pups: Seq<(usize, Seq<(String, String)>)>,
    pub quick_returns: Seq<(usize, Seq<(String, String)>)>,
    pub flaccid_grabs: Seq<(usize, Seq<(String, String)>)>,
    pub tags_no_pops: Seq<(usize, Seq<(String, String)>)>,
    pub returns_no_grabs: Seq<(usize, Seq<(String, String)>)>,
    pub hold_no_returns: Seq<(usize, Seq<(String, String)>)>,
    pub caps_no_returns: Seq<(usize, Seq<(String, String)>)>,
}

impl View for StatLeaderboards {
    type V = BoardsView;

    open spec fn view(&self) -> BoardsView {
        BoardsView {
            caps: self.caps@,
            returns: self.returns@,
            tags: self.tags@,
            pops: self.pops@,
            grabs: self.grabs@,
            hold: self.hold@,
            prevent: self.prevent@,
            button: self.button@,
            pups: self.pups@,
            quick_returns: self.quick_returns@,
            flaccid_grabs: self.flaccid_grabs@,
            tags_no_pops: self.tags_no_pops@,
            returns_no_grabs: self.returns_no_grabs@,
            hold_no_returns: self.hold_no_returns@,
            caps_no_returns: self.caps_no_returns@,
        }
    }
}

/// One entry folded into the all board and into the win or loss board
/// that matches the outcome.
pub open spec fn spec_wl3(
    a: Seq<(usize, Seq<(String, String)>)>,
    w: Seq<(usize, Seq<(String, String)>)>,
    l: Seq<(usize, Seq<(String, String)>)>,
    value: usize,
    item: (String, String),
    is_win: bool,
) -> (Seq<(usize, Seq<(String, String)>)>, Seq<(usize, Seq<(String, String)>)>, Seq<
    (usize, Seq<(String, String)>),
>) {
    (
        spec_lb_insert(a, value, item),
        if is_win {
            spec_lb_insert(w, value, item)
        } else {
            w
        },
        if is_win {
            l
        } else {
            spec_lb_insert(l, value, item)
        },
    )
}

/// One player's finished record folded into a leaderboard set triple:
/// every plain stat, the time stats in seconds, and the four conditional
/// boards where their condition holds.
pub open spec fn spec_insert_stats(
    a: BoardsView,
    w: BoardsView,
    l: BoardsView,
    match_id: String,
    name: String,
    s: PlayerGameStats,
    is_win: bool,
) -> (BoardsView, BoardsView, BoardsView) {
    let item = (match_id, name);
    let (ac, wc, lc) = spec_wl3(a.caps, w.caps, l.caps, s.caps, item, is_win);
    let (ar, wr, lr) = spec_wl3(a.returns, w.returns, l.returns, s.returns, item, is_win);
    let (at, wt, lt) = spec_wl3(a.tags, w.tags, l.tags, s.tags, item, is_win);
    let (ao, wo, lo) = spec_wl3(a.pops, w.pops, l.pops, s.pops, item, is_win);
    let (ag, wg, lg) = spec_wl3(a.grabs, w.grabs, l.grabs, s.grabs, item, is_win);
    let (au, wu, lu) = spec_wl3(a.pups, w.pups, l.pups, s.pups, item, is_win);
    let (aq, wq, lq) = spec_wl3(
        a.quick_returns,
        w.quick_returns,
        l.quick_returns,
        s.quick_returns,
        item,
        is_win,
    );
    let (af, wf, lf) = spec_wl3(
        a.flaccid_grabs,
        w.flaccid_grabs,
        l.flaccid_grabs,
        s.flaccid_grabs,
        item,
        is_win,
    );
    let (ah, wh, lh) = spec_wl3(a.hold, w.hold, l.hold, s.hold / 60, item, is_win);
    let (ap, wp, lp) = spec_wl3(a.prevent, w.prevent, l.prevent, s.prevent / 60, item, is_win);
    let (ab, wb, lb) = spec_wl3(a.button, w.button, l.button, s.button / 60, item, is_win);
    let (atn, wtn, ltn) = if s.tags > 0 && s.pops == 0 {
        spec_wl3(a.tags_no_pops, w.tags_no_pops, l.tags_no_pops, s.tags, item, is_win)
    } else {
        (a.tags_no_pops, w.tags_no_pops, l.tags_no_pops)
    };
    let (arn, wrn, lrn) = if s.returns > 0 && s.grabs == 0 {
        spec_wl3(a.returns_no_grabs, w.returns_no_grabs, l.returns_no_grabs, s.returns, item, is_win)
    } else {
        (a.returns_no_grabs, w.returns_no_grabs, l.returns_no_grabs)
    };
    let (ahn, whn, lhn) = if s.hold > 0 && s.returns == 0 {
        spec_wl3(a.hold_no_returns, w.hold_no_returns, l.hold_no_returns, s.hold / 60, item, is_win)
    } else {
        (a.hold_no_returns, w.hold_no_returns, l.hold_no_returns)
    };
    let (acn, wcn, lcn) = if s.caps > 0 && s.returns == 0 {
        spec_wl3(a.caps_no_returns, w.caps_no_returns, l.caps_no_returns, s.caps, item, is_win)
    } else {
        (a.caps_no_returns, w.caps_no_returns, l.caps_no_returns)
    };
    (
        BoardsView {
            caps: ac,
            returns: ar,
            tags: at,
            pops: ao,
            grabs: ag,
            hold: ah,
            prevent: ap,
            button: ab,
            pups: au,
            quick_returns: aq,
            flaccid_grabs: af,
            tags_no_pops: atn,
            returns_no_grabs: arn,
            hold_no_returns: ahn,
            caps_no_returns: acn,
        },
        BoardsView {
            caps: wc,
            returns: wr,
            tags: wt,
            pops: wo,
            grabs: wg,
            hold: wh,
            prevent: wp,
            button: wb,
            pups: wu,
            quick_returns: wq,
            flaccid_grabs: wf,
            tags_no_pops: wtn,
            returns_no_grabs: wrn,
            hold_no_returns: whn,
            caps_no_returns: wcn,
        },
        BoardsView {
            caps: lc,
            returns: lr,
            tags: lt,
            pops: lo,
            grabs: lg,
            hold: lh,
            prevent: lp,
            button: lb,
            pups: lu,
            quick_returns: lq,
            flaccid_grabs: lf,
            tags_no_pops: ltn,
            returns_no_grabs: lrn,
            hold_no_returns: lhn,
            caps_no_returns: lcn,
        },
    )
}

/// Every board of the set has strictly ascending rung values.
pub open spec fn spec_insert_stats_wf(v: BoardsView) -> bool {
    lb_sorted(v.caps) && lb_sorted(v.returns) && lb_sorted(v.tags) && lb_sorted(v.pops)
        && lb_sorted(v.grabs) && lb_sorted(v.hold) && lb_sorted(v.prevent) && lb_sorted(v.button)
        && lb_sorted(v.pups) && lb_sorted(v.quick_returns) && lb_sorted(v.flaccid_grabs)
        && lb_sorted(v.tags_no_pops) && lb_sorted(v.returns_no_grabs) && lb_sorted(
        v.hold_no_returns,
    ) && lb_sorted(v.caps_no_returns)
}

/// Folds one player's finished record into a leaderboard set triple, as
/// `spec_insert_stats` describes.
#[verifier::rlimit(100)]
pub fn insert_player_records(
    all: &mut StatLeaderboards,
    wins: &mut StatLeaderboards,
    losses: &mut StatLeaderboards,
    match_id: &String,
    player_name: &String,
    s: PlayerGameStats,
    is_win: bool,
)
    requires
        old(all).wf(),
        old(wins).wf(),
        old(losses).wf(),
    ensures
        final(all).wf(),
        final(wins).wf(),
        final(losses).wf(),
        ({
            let (a2, w2, l2) = spec_insert_stats(
                old(all)@,
                old(wins)@,
                old(losses)@,
                *match_id,
                *player_name,
                s,
                is_win,
            );
            final(all)@ == a2 && final(wins)@ == w2 && final(losses)@ == l2
        }),
{
    RecordsCollector::insert_with_win_loss(
        &mut all.caps,
        &mut wins.caps,
        &mut losses.caps,
        match_id.clone(),
        player_name.clone(),
        s.caps,
        is_win,
    );
    RecordsCollector::insert_with_win_loss(
        &mut all.returns,
        &mut wins.returns,
        &mut losses.returns,
        match_id.clone(),
        player_name.clone(),
        s.returns,
        is_win,
    );
    RecordsCollector::insert_with_win_loss(
        &mut all.tags,
        &mut wins.tags,
        &mut losses.tags,
        match_id.clone(),
        player_name.clone(),
        s.tags,
        is_win,
    );
    RecordsCollector::insert_with_win_loss(
        &mut all.pops,
        &mut wins.pops,
        &mut losses.pops,
        match_id.clone(),
        player_name.clone(),
        s.pops,
        is_win,
    );
    RecordsCollector::insert_with_win_loss(
        &mut all.grabs,
        &mut wins.grabs,
        &mut losses.grabs,
        match_id.clone(),
        player_name.clone(),
        s.grabs,
        is_win,
    );
    RecordsCollector::insert_with_win_loss(
        &mut all.pups,
        &mut wins.pups,
        &mut losses.pups,
        match_id.clone(),
        player_name.clone(),
        s.pups,
        is_win,
    );
    RecordsCollector::insert_with_win_loss(
        &mut all.quick_returns,
        &mut wins.quick_returns,
        &mut losses.quick_returns,
        match_id.clone(),
        player_name.clone(),
        s.quick_returns,
        is_win,
    );
    RecordsCollector::insert_with_win_loss(
        &mut all.flaccid_grabs,
        &mut wins.flaccid_grabs,
        &mut losses.flaccid_grabs,
        match_id.clone(),
        player_name.clone(),
        s.flaccid_grabs,
        is_win,
    );
    RecordsCollector::insert_with_win_loss(
        &mut all.hold,
        &mut wins.hold,
        &mut losses.hold,
        match_id.clone(),
        player_name.clone(),
        s.hold / 60,
        is_win,
    );
    RecordsCollector::insert_with_win_loss(
        &mut all.prevent,
        &mut wins.prevent,
        &mut losses.prevent,
        match_id.clone(),
        player_name.clone(),
        s.prevent / 60,
        is_win,
    );
    RecordsCollector::insert_with_win_loss(
        &mut all.button,
        &mut wins.button,
        &mut losses.button,
        match_id.clone(),
        player_name.clone(),
        s.button / 60,
        is_win,
    );
    if s.tags > 0 && s.pops == 0 {
        RecordsCollector::insert_with_win_loss(
            &mut all.tags_no_pops,
            &mut wins.tags_no_pops,
            &mut losses.tags_no_pops,
            match_id.clone(),
            player_name.clone(),
            s.tags,
            is_win,
        );
    }
    if s.returns > 0 && s.grabs == 0 {
        RecordsCollector::insert_with_win_loss(
            &mut all.returns_no_grabs,
            &mut wins.returns_no_grabs,
            &mut losses.returns_no_grabs,
            match_id.clone(),
            player_name.clone(),
            s.returns,
            is_win,
        );
    }
    if s.hold > 0 && s.returns == 0 {
        RecordsCollector::insert_with_win_loss(
            &mut all.hold_no_returns,
            &mut wins.hold_no_returns,
            &mut losses.hold_no_returns,
            match_id.clone(),
            player_name.clone(),
            s.hold / 60,
            is_win,
        );
    }
    if s.caps > 0 && s.returns == 0 {
        RecordsCollector::insert_with_win_loss(
            &mut all.caps_no_returns,
            &mut wins.caps_no_returns,
            &mut losses.caps_no_returns,
            match_id.clone(),
            player_name.clone(),
            s.caps,
            is_win,
        );
    }
}

/// Every player's full-game and first-eight-minutes records folded into
/// the six leaderboard sets, in player order; wins and losses are told
/// apart by the team of the player's first join and the final capture
/// differential.
pub open spec fn spec_insert_match_players(
    fa: BoardsView,
    fw: BoardsView,
    fl: BoardsView,
    ea: BoardsView,
    ew: BoardsView,
    el: BoardsView,
    players: Seq<PlayerLog>,
    i: int,
    match_id: String,
    duration: usize,
    full: Seq<PlayerGameStats>,
    first8: Seq<PlayerGameStats>,
    cap_diff: int,
) -> (BoardsView, BoardsView, BoardsView, BoardsView, BoardsView, BoardsView)
    decreases players.len() - i,
{
    if i < 0 || i >= players.len() {
        (fa, fw, fl, ea, ew, el)
    } else {
        let p = players[i];
        let start = crate::log_reader::spec_team_of_code(p.team);
        let jt = spec_join_team(spec_player_events(p.events@, start, duration), 0, start);
        let is_win = if jt == Team::Red {
            cap_diff > 0
        } else if jt == Team::Blue {
            cap_diff < 0
        } else {
            false
        };
        let (fa2, fw2, fl2) = spec_insert_stats(fa, fw, fl, match_id, p.name, full[i], is_win);
        let (ea2, ew2, el2) = spec_insert_stats(ea, ew, el, match_id, p.name, first8[i], is_win);
        spec_insert_match_players(
            fa2,
            fw2,
            fl2,
            ea2,
            ew2,
            el2,
            players,
            i + 1,
            match_id,
            duration,
            full,
            first8,
            cap_diff,
        )
    }
}

impl RecordsCollector {
    /// Folds one match into the record book: decodes every player, fuses
    /// the streams into the sorted timeline, replays it whole and up to
    /// the first eight minutes, and inserts every player's finished
    /// records. A match below the minimum lengths, with fewer than eight
    /// players, with an unreadable team code, or too large to count is
    /// left out and the book unchanged.
    #[verifier::rlimit(100)]
    pub fn process_match(&mut self, match_id: String, players: &Vec<PlayerLog>, duration: usize)
        requires
            old(self).wf(),
            forall|p: int|
                0 <= p < players@.len() ==> 8 * (#[trigger] players@[p]).events@.len()
                    <= usize::MAX,
        ensures
            final(self).wf(),
            ({
                let all = spec_stable_sort_by_time(
                    spec_collect_events(Seq::empty(), players@, 0, duration, usize::MAX),
                );
                let f8 = spec_stable_sort_by_time(
                    spec_collect_events(Seq::empty(), players@, 0, duration, EIGHT_MINUTES),
                );
                let eligible = players@.len() >= 8 && duration >= MINIMUM_RANKED_MATCH_LENGTH
                    && duration >= MINIMUM_RECORD_MATCH_LENGTH && (forall|p: int|
                    0 <= p < players@.len() ==> (#[trigger] players@[p]).team <= 2) && all.len()
                    <= MAX_TIMELINE_EVENTS;
                if eligible {
                    let full = spec_finalize_seq(
                        spec_records_replay(
                            all,
                            0,
                            spec_init_stats(players@.len()),
                            None,
                            None,
                            duration,
                        ).0,
                        duration,
                        duration,
                    );
                    let first8 = spec_finalize_seq(
                        spec_records_replay(
                            f8,
                            0,
                            spec_init_stats(players@.len()),
                            None,
                            None,
                            EIGHT_MINUTES,
                        ).0,
                        duration,
                        EIGHT_MINUTES,
                    );
                    let cd = spec_cap_diff(all, all.len() as int);
                    (
                        final(self).full_all@,
                        final(self).full_wins@,
                        final(self).full_losses@,
                        final(self).first8_all@,
                        final(self).first8_wins@,
                        final(self).first8_losses@,
                    ) == spec_insert_match_players(
                        old(self).full_all@,
                        old(self).full_wins@,
                        old(self).full_losses@,
                        old(self).first8_all@,
                        old(self).first8_wins@,
                        old(self).first8_losses@,
                        players@,
                        0,
                        match_id,
                        duration,
                        full,
                        first8,
                        cd,
                    )
                } else {
                    *final(self) == *old(self)
                }
            }),
    {
        if players.len() < 8 {
            return ;
        }
        if duration < MINIMUM_RANKED_MATCH_LENGTH {
            return ;
        }
        if duration < MINIMUM_RECORD_MATCH_LENGTH {
            return ;
        }
        let mut q: usize = 0;
        while q < players.len()
            invariant
                q <= players@.len(),
                forall|p: int| 0 <= p < q ==> (#[trigger] players@[p]).team <= 2,
                *self == *old(self),
                old(self).wf(),
            decreases players@.len() - q,
        {
            if players[q].team > 2 {
                return ;
            }
            q = q + 1;
        }
        let collected = collect_records_events(players, duration);
        let all = stable_sort_by_time(&collected.0);
        let f8 = stable_sort_by_time(&collected.1);
        proof {
            crate::timeline::lemma_sort_bounds(collected.0@, players@.len() as usize, usize::MAX);
            crate::timeline::lemma_sort_bounds(collected.1@, players@.len() as usize, usize::MAX);
        }
        if all.len() > MAX_TIMELINE_EVENTS {
            return ;
        }
        let mut stats_full = replay_all(&all, players.len(), duration);
        let mut stats_f8 = replay_all(&f8, players.len(), EIGHT_MINUTES);
        finalize_all(&mut stats_full, duration, duration);
        finalize_all(&mut stats_f8, duration, EIGHT_MINUTES);
        proof {
            assert(stats_full@ =~= spec_finalize_seq(
                spec_records_replay(
                    all@,
                    0,
                    spec_init_stats(players@.len()),
                    None,
                    None,
                    duration,
                ).0,
                duration,
                duration,
            ));
            assert(stats_f8@ =~= spec_finalize_seq(
                spec_records_replay(
                    f8@,
                    0,
                    spec_init_stats(players@.len()),
                    None,
                    None,
                    EIGHT_MINUTES,
                ).0,
                duration,
                EIGHT_MINUTES,
            ));
        }
        let mut cap_diff: isize = 0;
        let mut j: usize = 0;
        while j < all.len()
            invariant
                j <= all@.len(),
                all@.len() <= MAX_TIMELINE_EVENTS,
                cap_diff as int == spec_cap_diff(all@, j as int),
                spec_sorted_by_time(all@),
            decreases all@.len() - j,
        {
            proof {
                lemma_cap_diff_bound(all@, j as int);
            }
            if matches!(all[j].event_type, Event::Capture) {
                match all[j].team {
                    Team::Red => {
                        cap_diff = cap_diff + 1;
                    },
                    Team::Blue => {
                        cap_diff = cap_diff - 1;
                    },
                    _ => {},
                }
            }
            j = j + 1;
        }
        let ghost fa0 = self.full_all@;
        let ghost fw0 = self.full_wins@;
        let ghost fl0 = self.full_losses@;
        let ghost ea0 = self.first8_all@;
        let ghost ew0 = self.first8_wins@;
        let ghost el0 = self.first8_losses@;
        let mut i: usize = 0;
        while i < players.len()
            invariant
                i <= players@.len(),
                players@.len() == stats_full@.len(),
                players@.len() == stats_f8@.len(),
                forall|p: int|
                    0 <= p < players@.len() ==> 8 * (#[trigger] players@[p]).events@.len()
                        <= usize::MAX,
                self.wf(),
                spec_insert_match_players(
                    self.full_all@,
                    self.full_wins@,
                    self.full_losses@,
                    self.first8_all@,
                    self.first8_wins@,
                    self.first8_losses@,
                    players@,
                    i as int,
                    match_id,
                    duration,
                    stats_full@,
                    stats_f8@,
                    cap_diff as int,
                ) == spec_insert_match_players(
                    fa0,
                    fw0,
                    fl0,
                    ea0,
                    ew0,
                    el0,
                    players@,
                    0,
                    match_id,
                    duration,
                    stats_full@,
                    stats_f8@,
                    cap_diff as int,
                ),
            decreases players@.len() - i,
        {
            let start = crate::log_reader::team_of_code(players[i].team);
            let mut reader = EventsReader::new(clone_bytes(&players[i].events));
            let evs = reader.player_events(start, duration);
            let jt = join_team(&evs, start);
            let is_win = match jt {
                Team::Red => cap_diff > 0,
                Team::Blue => cap_diff < 0,
                _ => false,
            };
            insert_player_records(
                &mut self.full_all,
                &mut self.full_wins,
                &mut self.full_losses,
                &match_id,
                &players[i].name,
                stats_full[i],
                is_win,
            );
            insert_player_records(
                &mut self.first8_all,
                &mut self.first8_wins,
                &mut self.first8_losses,
                &match_id,
                &players[i].name,
                stats_f8[i],
                is_win,
            );
            i = i + 1;
        }
    }
}

/// One record added field by field onto a running total.
pub open spec fn spec_add_stats(total: PlayerGameStats, player: PlayerGameStats) -> PlayerGameStats {
    PlayerGameStats {
        caps: (total.caps + player.caps) as usize,
        returns: (total.returns + player.returns) as usize,
        tags: (total.tags + player.tags) as usize,
        pops: (total.pops + player.pops) as usize,
        grabs: (total.grabs + player.grabs) as usize,
        pups: (total.pups + player.pups) as usize,
        quick_returns: (total.quick_returns + player.quick_returns) as usize,
        hold: (total.hold + player.hold) as usize,
        prevent: (total.prevent + player.prevent) as usize,
        ..total
    }
}

/// Finalizing keeps the accumulated times within the cutoff.
pub proof fn lemma_finalize_accums(s: PlayerGameStats, end_time: usize, cutoff: usize)
    requires
        s.time_ok(usize::MAX),
        accums_below(s, cutoff),
    ensures
        accums_below(s.spec_finalize(end_time, cutoff), cutoff),
{
}

/// Leaderboards for whole-team records: highs for each summed stat, the
/// derived non-tag pops and the signed hold differential, and lows for a
/// chosen few. Each entry carries the match and the team's players as one
/// comma-joined name list.
#[derive(Debug)]
pub struct TeamLeaderboards {
    pub caps: Leaderboard<(String, String)>,
    pub tags: Leaderboard<(String, String)>,
    pub returns: Leaderboard<(String, String)>,
    pub hold: Leaderboard<(String, String)>,
    pub prevent: Leaderboard<(String, String)>,
    pub pups: Leaderboard<(String, String)>,
    pub quick_returns: Leaderboard<(String, String)>,
    pub non_tag_pops: Leaderboard<(String, String)>,
    pub hold_differential: SignedLeaderboard<(String, String)>,
    pub tags_low: Leaderboard<(String, String)>,
    pub returns_low: Leaderboard<(String, String)>,
    pub hold_low: Leaderboard<(String, String)>,
    pub prevent_low: Leaderboard<(String, String)>,
    pub pups_low: Leaderboard<(String, String)>,
}

/// The pure value of one team leaderboard set.
pub ghost struct TeamBoardsView {
    pub caps: Seq<(usize, Seq<(String, String)>)>,
    pub tags: Seq<(usize, Seq<(String, String)>)>,
    pub returns: Seq<(usize, Seq<(String, String)>)>,
    pub hold: Seq<(usize, Seq<(String, String)>)>,
    pub prevent: Seq<(usize, Seq<(String, String)>)>,
    pub pups: Seq<(usize, Seq<(String, String)>)>,
    pub quick_returns: Seq<(usize, Seq<(String, String)>)>,
    pub non_tag_pops: Seq<(usize, Seq<(String, String)>)>,
    pub hold_differential: Seq<(isize, Seq<(String, String)>)>,
    pub tags_low: Seq<(usize, Seq<(String, String)>)>,
    pub returns_low: Seq<(usize, Seq<(String, String)>)>,
    pub hold_low: Seq<(usize, Seq<(String, String)>)>,
    pub prevent_low: Seq<(usize, Seq<(String, String)>)>,
    pub pups_low: Seq<(usize, Seq<(String, String)>)>,
}

impl View for TeamLeaderboards {
    type V = TeamBoardsView;

    open spec fn view(&self) -> TeamBoardsView {
        TeamBoardsView {
            caps: self.caps@,
            tags: self.tags@,
            returns: self.returns@,
            hold: self.hold@,
            prevent: self.prevent@,
            pups: self.pups@,
            quick_returns: self.quick_returns@,
            non_tag_pops: self.non_tag_pops@,
            hold_differential: self.hold_differential@,
            tags_low: self.tags_low@,
            returns_low: self.returns_low@,
            hold_low: self.hold_low@,
            prevent_low: self.prevent_low@,
            pups_low: self.pups_low@,
        }
    }
}

impl TeamLeaderboards {
    /// Every board of the set is empty.
    pub open spec fn is_empty(self) -> bool {
        self.caps@ == Seq::<(usize, Seq<(String, String)>)>::empty() && self.tags@ == Seq::<
            (usize, Seq<(String, String)>),
        >::empty() && self.returns@ == Seq::<(usize, Seq<(String, String)>)>::empty()
            && self.hold@ == Seq::<(usize, Seq<(String, String)>)>::empty() && self.prevent@
            == Seq::<(usize, Seq<(String, String)>)>::empty() && self.pups@ == Seq::<
            (usize, Seq<(String, String)>),
        >::empty() && self.quick_returns@ == Seq::<(usize, Seq<(String, String)>)>::empty()
            && self.non_tag_pops@ == Seq::<(usize, Seq<(String, String)>)>::empty()
            && self.hold_differential@ == Seq::<(isize, Seq<(String, String)>)>::empty()
            && self.tags_low@ == Seq::<(usize, Seq<(String, String)>)>::empty()
            && self.returns_low@ == Seq::<(usize, Seq<(String, String)>)>::empty()
            && self.hold_low@ == Seq::<(usize, Seq<(String, String)>)>::empty()
            && self.prevent_low@ == Seq::<(usize, Seq<(String, String)>)>::empty()
            && self.pups_low@ == Seq::<(usize, Seq<(String, String)>)>::empty()
    }

    pub open spec fn wf(self) -> bool {
        self.caps.wf() && self.tags.wf() && self.returns.wf() && self.hold.wf()
            && self.prevent.wf() && self.pups.wf() && self.quick_returns.wf()
            && self.non_tag_pops.wf() && self.hold_differential.wf() && self.tags_low.wf()
            && self.returns_low.wf() && self.hold_low.wf() && self.prevent_low.wf()
            && self.pups_low.wf()
    }

    /// A full set of empty team leaderboards.
    pub fn new() -> (r: TeamLeaderboards)
        ensures
            r.wf(),
            r.is_empty(),
    {
        TeamLeaderboards {
            caps: Leaderboard::new(),
            tags: Leaderboard::new(),
            returns: Leaderboard::new(),
            hold: Leaderboard::new(),
            prevent: Leaderboard::new(),
            pups: Leaderboard::new(),
            quick_returns: Leaderboard::new(),
            non_tag_pops: Leaderboard::new(),
            hold_differential: SignedLeaderboard::new(),
            tags_low: Leaderboard::new(),
            returns_low: Leaderboard::new(),
            hold_low: Leaderboard::new(),
            prevent_low: Leaderboard::new(),
            pups_low: Leaderboard::new(),
        }
    }
}

/// One team's summed record folded into a win or loss leaderboard set:
/// the highs, the derived non-tag pops (the team's pops less the
/// opponent's tags, clamped at zero) and the hold differential in whole
/// seconds with the quotient truncated toward zero, and the lows.
pub open spec fn spec_insert_team_stats(
    v: TeamBoardsView,
    item: (String, String),
    team: PlayerGameStats,
    opponent: PlayerGameStats,
) -> TeamBoardsView {
    let ntp: usize = if team.pops >= opponent.tags {
        (team.pops - opponent.tags) as usize
    } else {
        0
    };
    let hd: isize = if team.hold >= opponent.hold {
        ((team.hold - opponent.hold) / 60) as isize
    } else {
        (-(((opponent.hold - team.hold) / 60) as int)) as isize
    };
    TeamBoardsView {
        caps: spec_lb_insert(v.caps, team.caps, item),
        tags: spec_lb_insert(v.tags, team.tags, item),
        returns: spec_lb_insert(v.returns, team.returns, item),
        hold: spec_lb_insert(v.hold, team.hold / 60, item),
        prevent: spec_lb_insert(v.prevent, team.prevent / 60, item),
        pups: spec_lb_insert(v.pups, team.pups, item),
        quick_returns: spec_lb_insert(v.quick_returns, team.quick_returns, item),
        non_tag_pops: spec_lb_insert(v.non_tag_pops, ntp, item),
        hold_differential: spec_slb_insert(v.hold_differential, hd, item),
        tags_low: spec_lb_insert(v.tags_low, team.tags, item),
        returns_low: spec_lb_insert(v.returns_low, team.returns, item),
        hold_low: spec_lb_insert(v.hold_low, team.hold / 60, item),
        prevent_low: spec_lb_insert(v.prevent_low, team.prevent / 60, item),
        pups_low: spec_lb_insert(v.pups_low, team.pups, item),
    }
}

/// The whole-team record book: win and loss sets for the full game and
/// for the first eight minutes.
#[derive(Debug)]
pub struct TeamRecordsCollector {
    pub full_wins: TeamLeaderboards,
    pub full_losses: TeamLeaderboards,
    pub first8_wins: TeamLeaderboards,
    pub first8_losses: TeamLeaderboards,
}

impl TeamRecordsCollector {
    pub open spec fn wf(self) -> bool {
        self.full_wins.wf() && self.full_losses.wf() && self.first8_wins.wf()
            && self.first8_losses.wf()
    }

    /// An empty team record book.
    pub fn new() -> (r: TeamRecordsCollector)
        ensures
            r.wf(),
            r.full_wins.is_empty(),
            r.full_losses.is_empty(),
            r.first8_wins.is_empty(),
            r.first8_losses.is_empty(),
    {
        TeamRecordsCollector {
            full_wins: TeamLeaderboards::new(),
            full_losses: TeamLeaderboards::new(),
            first8_wins: TeamLeaderboards::new(),
            first8_losses: TeamLeaderboards::new(),
        }
    }

    /// Folds one entry into one team board, as `spec_lb_insert`
    /// describes.
    pub fn insert_team_record(
        map: &mut Leaderboard<(String, String)>,
        match_id: String,
        team_players: String,
        value: usize,
    )
        requires
            old(map).wf(),
        ensures
            final(map)@ == spec_lb_insert(old(map)@, value, (match_id, team_players)),
            final(map).wf(),
    {
        map.insert(value, (match_id, team_players));
    }

    /// Folds one entry into one signed team board, as `spec_slb_insert`
    /// describes.
    pub fn insert_team_record_signed(
        map: &mut SignedLeaderboard<(String, String)>,
        match_id: String,
        team_players: String,
        value: isize,
    )
        requires
            old(map).wf(),
        ensures
            final(map)@ == spec_slb_insert(old(map)@, value, (match_id, team_players)),
            final(map).wf(),
    {
        map.insert(value, (match_id, team_players));
    }

    /// Adds one player's record onto a running team total, field by
    /// field, as `spec_add_stats` describes.
    pub fn add_stats(total: &mut PlayerGameStats, player: &PlayerGameStats)
        requires
            old(total).caps + player.caps <= usize::MAX,
            old(total).returns + player.returns <= usize::MAX,
            old(total).tags + player.tags <= usize::MAX,
            old(total).pops + player.pops <= usize::MAX,
            old(total).grabs + player.grabs <= usize::MAX,
            old(total).pups + player.pups <= usize::MAX,
            old(total).quick_returns + player.quick_returns <= usize::MAX,
            old(total).hold + player.hold <= usize::MAX,
            old(total).prevent + player.prevent <= usize::MAX,
        ensures
            *final(total) == spec_add_stats(*old(total), *player),
    {
        total.caps = total.caps + player.caps;
        total.returns = total.returns + player.returns;
        total.tags = total.tags + player.tags;
        total.pops = total.pops + player.pops;
        total.grabs = total.grabs + player.grabs;
        total.pups = total.pups + player.pups;
        total.quick_returns = total.quick_returns + player.quick_returns;
        total.hold = total.hold + player.hold;
        total.prevent = total.prevent + player.prevent;
    }

    /// Folds one team's summed record into the win or loss set that
    /// matches the outcome, as `spec_insert_team_stats` describes.
    #[verifier::rlimit(100)]
    pub fn insert_team_stats(
        wins: &mut TeamLeaderboards,
        losses: &mut TeamLeaderboards,
        match_id: String,
        team_players: String,
        team_stats: &PlayerGameStats,
        opponent_stats: &PlayerGameStats,
        is_win: bool,
    )
        requires
            old(wins).wf(),
            old(losses).wf(),
            team_stats.hold < 0x8000_0000,
            opponent_stats.hold < 0x8000_0000,
        ensures
            final(wins).wf(),
            final(losses).wf(),
            is_win ==> final(wins)@ == spec_insert_team_stats(
                old(wins)@,
                (match_id, team_players),
                *team_stats,
                *opponent_stats,
            ) && final(losses)@ == old(losses)@,
            !is_win ==> final(losses)@ == spec_insert_team_stats(
                old(losses)@,
                (match_id, team_players),
                *team_stats,
                *opponent_stats,
            ) && final(wins)@ == old(wins)@,
    {
        let ntp: usize = if team_stats.pops >= opponent_stats.tags {
            team_stats.pops - opponent_stats.tags
        } else {
            0
        };
        let hd: isize = if team_stats.hold >= opponent_stats.hold {
            ((team_stats.hold - opponent_stats.hold) / 60) as isize
        } else {
            let d = (opponent_stats.hold - team_stats.hold) / 60;
            proof {
                assert(d < 0x8000_0000) by (nonlinear_arith)
                    requires
                        d == ((opponent_stats.hold - team_stats.hold) as usize) / 60
                            && opponent_stats.hold >= team_stats.hold && opponent_stats.hold
                            < 0x8000_0000,
                ;
            }
            -(d as isize)
        };
        let board = if is_win {
            wins
        } else {
            losses
        };
        board.caps.insert(team_stats.caps, (match_id.clone(), team_players.clone()));
        board.tags.insert(team_stats.tags, (match_id.clone(), team_players.clone()));
        board.returns.insert(team_stats.returns, (match_id.clone(), team_players.clone()));
        board.hold.insert(team_stats.hold / 60, (match_id.clone(), team_players.clone()));
        board.prevent.insert(team_stats.prevent / 60, (match_id.clone(), team_players.clone()));
        board.pups.insert(team_stats.pups, (match_id.clone(), team_players.clone()));
        board.quick_returns.insert(
            team_stats.quick_returns,
            (match_id.clone(), team_players.clone()),
        );
        board.non_tag_pops.insert(ntp, (match_id.clone(), team_players.clone()));
        board.hold_differential.insert(hd, (match_id.clone(), team_players.clone()));
        board.tags_low.insert(team_stats.tags, (match_id.clone(), team_players.clone()));
        board.returns_low.insert(team_stats.returns, (match_id.clone(), team_players.clone()));
        board.hold_low.insert(team_stats.hold / 60, (match_id.clone(), team_players.clone()));
        board.prevent_low.insert(team_stats.prevent / 60, (match_id.clone(), team_players.clone()));
        board.pups_low.insert(team_stats.pups, (match_id, team_players));
    }
}

/// The largest fused timeline the team and combined record books count,
/// and the largest match length and player count they accept, so that
/// every summed stat stays representable.
pub const TEAM_MAX_TIMELINE_EVENTS: usize = 0x0010_0000;

pub const TEAM_MAX_DURATION: usize = 0x0080_0000;

pub const TEAM_MAX_PLAYERS: usize = 255;

/// The two rosters' names and the four team sums after folding players
/// `i` onward: each player joins the red or blue total according to the
/// team of their first join event.
pub open spec fn spec_team_totals(
    players: Seq<PlayerLog>,
    i: int,
    duration: usize,
    full: Seq<PlayerGameStats>,
    first8: Seq<PlayerGameStats>,
    rn: Seq<String>,
    bn: Seq<String>,
    rf: PlayerGameStats,
    bf: PlayerGameStats,
    r8: PlayerGameStats,
    b8: PlayerGameStats,
) -> (Seq<String>, Seq<String>, PlayerGameStats, PlayerGameStats, PlayerGameStats, PlayerGameStats)
    decreases players.len() - i,
{
    if i < 0 || i >= players.len() {
        (rn, bn, rf, bf, r8, b8)
    } else {
        let start = crate::log_reader::spec_team_of_code(players[i].team);
        let jt = spec_join_team(spec_player_events(players[i].events@, start, duration), 0, start);
        if jt == Team::Red {
            spec_team_totals(
                players,
                i + 1,
                duration,
                full,
                first8,
                rn.push(players[i].name),
                bn,
                spec_add_stats(rf, full[i]),
                bf,
                spec_add_stats(r8, first8[i]),
                b8,
            )
        } else if jt == Team::Blue {
            spec_team_totals(
                players,
                i + 1,
                duration,
                full,
                first8,
                rn,
                bn.push(players[i].name),
                rf,
                spec_add_stats(bf, full[i]),
                r8,
                spec_add_stats(b8, first8[i]),
            )
        } else {
            spec_team_totals(players, i + 1, duration, full, first8, rn, bn, rf, bf, r8, b8)
        }
    }
}

/// One team's record folded into the win or the loss set.
pub open spec fn spec_wl_team(
    w: TeamBoardsView,
    l: TeamBoardsView,
    item: (String, String),
    team: PlayerGameStats,
    opponent: PlayerGameStats,
    is_win: bool,
) -> (TeamBoardsView, TeamBoardsView) {
    if is_win {
        (spec_insert_team_stats(w, item, team, opponent), l)
    } else {
        (w, spec_insert_team_stats(l, item, team, opponent))
    }
}

impl TeamRecordsCollector {
    /// Folds one match into the team record book: the fused timeline is
    /// replayed whole and over the first eight minutes, each roster's
    /// records are summed by the team of each player's first join, and
    /// both teams' sums are filed under win or loss by the final capture
    /// differential. A match below the minimum lengths, with fewer than
    /// eight players, with an unreadable team code, or too large to count
    /// is left out and the book unchanged.
    #[verifier::rlimit(100)]
    pub fn process_match(&mut self, match_id: String, players: &Vec<PlayerLog>, duration: usize)
        requires
            old(self).wf(),
            forall|p: int|
                0 <= p < players@.len() ==> 8 * (#[trigger] players@[p]).events@.len()
                    <= usize::MAX,
            players@.len() <= TEAM_MAX_PLAYERS,
            duration <= TEAM_MAX_DURATION,
        ensures
            final(self).wf(),
            ({
                let all = spec_stable_sort_by_time(
                    spec_collect_events(Seq::empty(), players@, 0, duration, usize::MAX),
                );
                let f8 = spec_stable_sort_by_time(
                    spec_collect_events(Seq::empty(), players@, 0, duration, EIGHT_MINUTES),
                );
                let eligible = players@.len() >= 8 && duration >= MINIMUM_RANKED_MATCH_LENGTH
                    && duration >= MINIMUM_RECORD_MATCH_LENGTH && (forall|p: int|
                    0 <= p < players@.len() ==> (#[trigger] players@[p]).team <= 2) && all.len()
                    <= TEAM_MAX_TIMELINE_EVENTS && f8.len() <= TEAM_MAX_TIMELINE_EVENTS;
                if eligible {
                    let full = spec_finalize_seq(
                        spec_records_replay(
                            all,
                            0,
                            spec_init_stats(players@.len()),
                            None,
                            None,
                            duration,
                        ).0,
                        duration,
                        duration,
                    );
                    let first8 = spec_finalize_seq(
                        spec_records_replay(
                            f8,
                            0,
                            spec_init_stats(players@.len()),
                            None,
                            None,
                            EIGHT_MINUTES,
                        ).0,
                        duration,
                        EIGHT_MINUTES,
                    );
                    let cd = spec_cap_diff(all, all.len() as int);
                    let t = spec_team_totals(
                        players@,
                        0,
                        duration,
                        full,
                        first8,
                        Seq::empty(),
                        Seq::empty(),
                        PlayerGameStats::spec_init(),
                        PlayerGameStats::spec_init(),
                        PlayerGameStats::spec_init(),
                        PlayerGameStats::spec_init(),
                    );
                    exists|rj: String, bj: String|
                        rj@ == crate::numfmt::spec_join_names(t.0, 0, Seq::empty()) && bj@
                            == crate::numfmt::spec_join_names(t.1, 0, Seq::empty()) && ({
                            let (fw1, fl1) = spec_wl_team(
                                old(self).full_wins@,
                                old(self).full_losses@,
                                (match_id, rj),
                                t.2,
                                t.3,
                                cd > 0,
                            );
                            let (fw2, fl2) = spec_wl_team(
                                fw1,
                                fl1,
                                (match_id, bj),
                                t.3,
                                t.2,
                                cd < 0,
                            );
                            let (ew1, el1) = spec_wl_team(
                                old(self).first8_wins@,
                                old(self).first8_losses@,
                                (match_id, rj),
                                t.4,
                                t.5,
                                cd > 0,
                            );
                            let (ew2, el2) = spec_wl_team(
                                ew1,
                                el1,
                                (match_id, bj),
                                t.5,
                                t.4,
                                cd < 0,
                            );
                            final(self).full_wins@ == fw2 && final(self).full_losses@ == fl2
                                && final(self).first8_wins@ == ew2 && final(self).first8_losses@
                                == el2
                        })
                } else {
                    *final(self) == *old(self)
                }
            }),
    {
        if players.len() < 8 {
            return ;
        }
        if duration < MINIMUM_RANKED_MATCH_LENGTH {
            return ;
        }
        if duration < MINIMUM_RECORD_MATCH_LENGTH {
            return ;
        }
        let mut q: usize = 0;
        while q < players.len()
            invariant
                q <= players@.len(),
                forall|p: int| 0 <= p < q ==> (#[trigger] players@[p]).team <= 2,
                *self == *old(self),
                old(self).wf(),
            decreases players@.len() - q,
        {
            if players[q].team > 2 {
                return ;
            }
            q = q + 1;
        }
        let collected = collect_records_events(players, duration);
        let all = stable_sort_by_time(&collected.0);
        let f8 = stable_sort_by_time(&collected.1);
        proof {
            crate::timeline::lemma_sort_bounds(collected.0@, players.len(), usize::MAX);
            crate::timeline::lemma_sort_bounds(collected.1@, players.len(), usize::MAX);
        }
        if all.len() > TEAM_MAX_TIMELINE_EVENTS {
            return ;
        }
        if f8.len() > TEAM_MAX_TIMELINE_EVENTS {
            return ;
        }
        let mut stats_full = replay_all(&all, players.len(), duration);
        let mut stats_f8 = replay_all(&f8, players.len(), EIGHT_MINUTES);
        let ghost pre_full = stats_full@;
        let ghost pre_f8 = stats_f8@;
        finalize_all(&mut stats_full, duration, duration);
        finalize_all(&mut stats_f8, duration, EIGHT_MINUTES);
        proof {
            assert forall|p: int| 0 <= p < players@.len() implies (#[trigger] stats_full@[p]).counters_below(
                TEAM_MAX_TIMELINE_EVENTS as int,
            ) && accums_below(stats_full@[p], duration) && stats_f8@[p].counters_below(
                TEAM_MAX_TIMELINE_EVENTS as int,
            ) && accums_below(stats_f8@[p], EIGHT_MINUTES) by {
                assert(stats_full@[p] == pre_full[p].spec_finalize(duration, duration));
                assert(stats_f8@[p] == pre_f8[p].spec_finalize(duration, EIGHT_MINUTES));
                lemma_finalize_accums(pre_full[p], duration, duration);
                lemma_finalize_accums(pre_f8[p], duration, EIGHT_MINUTES);
            }
        }
        proof {
            assert(stats_full@ =~= spec_finalize_seq(
                spec_records_replay(
                    all@,
                    0,
                    spec_init_stats(players@.len()),
                    None,
                    None,
                    duration,
                ).0,
                duration,
                duration,
            ));
            assert(stats_f8@ =~= spec_finalize_seq(
                spec_records_replay(
                    f8@,
                    0,
                    spec_init_stats(players@.len()),
                    None,
                    None,
                    EIGHT_MINUTES,
                ).0,
                duration,
                EIGHT_MINUTES,
            ));
        }
        let mut cap_diff: isize = 0;
        let mut j: usize = 0;
        while j < all.len()
            invariant
                j <= all@.len(),
                all@.len() <= TEAM_MAX_TIMELINE_EVENTS,
                cap_diff as int == spec_cap_diff(all@, j as int),
            decreases all@.len() - j,
        {
            proof {
                lemma_cap_diff_bound(all@, j as int);
            }
            if matches!(all[j].event_type, Event::Capture) {
                match all[j].team {
                    Team::Red => {
                        cap_diff = cap_diff + 1;
                    },
                    Team::Blue => {
                        cap_diff = cap_diff - 1;
                    },
                    _ => {},
                }
            }
            j = j + 1;
        }
        let mut red_names: Vec<String> = Vec::new();
        let mut blue_names: Vec<String> = Vec::new();
        let mut red_full = PlayerGameStats::new();
        let mut blue_full = PlayerGameStats::new();
        let mut red_f8 = PlayerGameStats::new();
        let mut blue_f8 = PlayerGameStats::new();
        let ghost whole = spec_team_totals(
            players@,
            0,
            duration,
            stats_full@,
            stats_f8@,
            Seq::empty(),
            Seq::empty(),
            PlayerGameStats::spec_init(),
            PlayerGameStats::spec_init(),
            PlayerGameStats::spec_init(),
            PlayerGameStats::spec_init(),
        );
        let mut i: usize = 0;
        while i < players.len()
            invariant
                i <= players@.len(),
                players@.len() <= TEAM_MAX_PLAYERS,
                duration <= TEAM_MAX_DURATION,
                players@.len() == stats_full@.len(),
                players@.len() == stats_f8@.len(),
                forall|p: int|
                    0 <= p < players@.len() ==> 8 * (#[trigger] players@[p]).events@.len()
                        <= usize::MAX,
                forall|p: int|
                    0 <= p < players@.len() ==> (#[trigger] stats_full@[p]).counters_below(
                        TEAM_MAX_TIMELINE_EVENTS as int,
                    ) && accums_below(stats_full@[p], duration) && stats_f8@[p].counters_below(
                        TEAM_MAX_TIMELINE_EVENTS as int,
                    ) && accums_below(stats_f8@[p], EIGHT_MINUTES),
                red_full.counters_below((TEAM_MAX_TIMELINE_EVENTS as int) * (i as int)),
                blue_full.counters_below((TEAM_MAX_TIMELINE_EVENTS as int) * (i as int)),
                red_f8.counters_below((TEAM_MAX_TIMELINE_EVENTS as int) * (i as int)),
                blue_f8.counters_below((TEAM_MAX_TIMELINE_EVENTS as int) * (i as int)),
                red_full.hold <= (duration as int) * (i as int),
                red_full.prevent <= (duration as int) * (i as int),
                blue_full.hold <= (duration as int) * (i as int),
                blue_full.prevent <= (duration as int) * (i as int),
                red_f8.hold <= (EIGHT_MINUTES as int) * (i as int),
                red_f8.prevent <= (EIGHT_MINUTES as int) * (i as int),
                blue_f8.hold <= (EIGHT_MINUTES as int) * (i as int),
                blue_f8.prevent <= (EIGHT_MINUTES as int) * (i as int),
                spec_team_totals(
                    players@,
                    i as int,
                    duration,
                    stats_full@,
                    stats_f8@,
                    red_names@,
                    blue_names@,
                    red_full,
                    blue_full,
                    red_f8,
                    blue_f8,
                ) == whole,
            decreases players@.len() - i,
        {
            proof {
                assert((TEAM_MAX_TIMELINE_EVENTS as int) * (i as int) + TEAM_MAX_TIMELINE_EVENTS
                    <= (TEAM_MAX_TIMELINE_EVENTS as int) * (i as int + 1) && (
                TEAM_MAX_TIMELINE_EVENTS as int) * (i as int + 1) <= (TEAM_MAX_TIMELINE_EVENTS as int)
                    * (TEAM_MAX_PLAYERS as int)) by (nonlinear_arith)
                    requires
                        0 <= i < players@.len() <= TEAM_MAX_PLAYERS,
                ;
                assert((duration as int) * (i as int) + duration <= (duration as int) * (i as int
                    + 1) && (duration as int) * (i as int + 1) <= (TEAM_MAX_DURATION as int) * (
                TEAM_MAX_PLAYERS as int)) by (nonlinear_arith)
                    requires
                        0 <= i < players@.len() <= TEAM_MAX_PLAYERS && duration
                            <= TEAM_MAX_DURATION,
                ;
                assert((EIGHT_MINUTES as int) * (i as int) + EIGHT_MINUTES <= (
                EIGHT_MINUTES as int) * (i as int + 1) && (EIGHT_MINUTES as int) * (i as int + 1)
                    <= (EIGHT_MINUTES as int) * (TEAM_MAX_PLAYERS as int)) by (nonlinear_arith)
                    requires
                        0 <= i < players@.len() <= TEAM_MAX_PLAYERS,
                ;
            }
            let start = crate::log_reader::team_of_code(players[i].team);
            let mut reader = EventsReader::new(clone_bytes(&players[i].events));
            let evs = reader.player_events(start, duration);
            let jt = join_team(&evs, start);
            match jt {
                Team::Red => {
                    red_names.push(players[i].name.clone());
                    TeamRecordsCollector::add_stats(&mut red_full, &stats_full[i]);
                    TeamRecordsCollector::add_stats(&mut red_f8, &stats_f8[i]);
                },
                Team::Blue => {
                    blue_names.push(players[i].name.clone());
                    TeamRecordsCollector::add_stats(&mut blue_full, &stats_full[i]);
                    TeamRecordsCollector::add_stats(&mut blue_f8, &stats_f8[i]);
                },
                _ => {},
            }
            i = i + 1;
        }
        proof {
            assert((duration as int) * (players@.len() as int) < 0x8000_0000) by (nonlinear_arith)
                requires
                    duration <= TEAM_MAX_DURATION && players@.len() <= TEAM_MAX_PLAYERS,
            ;
            assert((EIGHT_MINUTES as int) * (players@.len() as int) < 0x8000_0000)
                by (nonlinear_arith)
                requires
                    players@.len() <= TEAM_MAX_PLAYERS,
            ;
        }
        let red_joined = crate::numfmt::join_names(&red_names);
        let blue_joined = crate::numfmt::join_names(&blue_names);
        let red_wins = cap_diff > 0;
        let blue_wins = cap_diff < 0;
        TeamRecordsCollector::insert_team_stats(
            &mut self.full_wins,
            &mut self.full_losses,
            match_id.clone(),
            red_joined.clone(),
            &red_full,
            &blue_full,
            red_wins,
        );
        TeamRecordsCollector::insert_team_stats(
            &mut self.full_wins,
            &mut self.full_losses,
            match_id.clone(),
            blue_joined.clone(),
            &blue_full,
            &red_full,
            blue_wins,
        );
        TeamRecordsCollector::insert_team_stats(
            &mut self.first8_wins,
            &mut self.first8_losses,
            match_id.clone(),
            red_joined.clone(),
            &red_f8,
            &blue_f8,
            red_wins,
        );
        TeamRecordsCollector::insert_team_stats(
            &mut self.first8_wins,
            &mut self.first8_losses,
            match_id,
            blue_joined.clone(),
            &blue_f8,
            &red_f8,
            blue_wins,
        );
        proof {
            assert(red_joined@ == crate::numfmt::spec_join_names(whole.0, 0, Seq::empty()));
            assert(blue_joined@ == crate::numfmt::spec_join_names(whole.1, 0, Seq::empty()));
        }
    }
}

/// Leaderboards for whole-game records: both teams' players summed into
/// one record per match, keyed by match alone.
#[derive(Debug)]
pub struct CombinedGameLeaderboards {
    pub tags: Leaderboard<String>,
    pub returns: Leaderboard<String>,
    pub hold: Leaderboard<String>,
    pub prevent: Leaderboard<String>,
    pub quick_returns: Leaderboard<String>,
    pub non_tag_pops: Leaderboard<String>,
    pub tags_low: Leaderboard<String>,
    pub returns_low: Leaderboard<String>,
    pub hold_low: Leaderboard<String>,
    pub prevent_low: Leaderboard<String>,
    pub quick_returns_low: Leaderboard<String>,
}

/// The pure value of one whole-game leaderboard set.
pub ghost struct CombinedBoardsView {
    pub tags: Seq<(usize, Seq<String>)>,
    pub returns: Seq<(usize, Seq<String>)>,
    pub hold: Seq<(usize, Seq<String>)>,
    pub prevent: Seq<(usize, Seq<String>)>,
    pub quick_returns: Seq<(usize, Seq<String>)>,
    pub non_tag_pops: Seq<(usize, Seq<String>)>,
    pub tags_low: Seq<(usize, Seq<String>)>,
    pub returns_low: Seq<(usize, Seq<String>)>,
    pub hold_low: Seq<(usize, Seq<String>)>,
    pub prevent_low: Seq<(usize, Seq<String>)>,
    pub quick_returns_low: Seq<(usize, Seq<String>)>,
}

impl View for CombinedGameLeaderboards {
    type V = CombinedBoardsView;

    open spec fn view(&self) -> CombinedBoardsView {
        CombinedBoardsView {
            tags: self.tags@,
            returns: self.returns@,
            hold: self.hold@,
            prevent: self.prevent@,
            quick_returns: self.quick_returns@,
            non_tag_pops: self.non_tag_pops@,
            tags_low: self.tags_low@,
            returns_low: self.returns_low@,
            hold_low: self.hold_low@,
            prevent_low: self.prevent_low@,
            quick_returns_low: self.quick_returns_low@,
        }
    }
}

impl CombinedGameLeaderboards {
    /// Every board of the set is empty.
    pub open spec fn is_empty(self) -> bool {
        self.tags@ == Seq::<(usize, Seq<String>)>::empty() && self.returns@ == Seq::<
            (usize, Seq<String>),
        >::empty() && self.hold@ == Seq::<(usize, Seq<String>)>::empty() && self.prevent@ == Seq::<
            (usize, Seq<String>),
        >::empty() && self.quick_returns@ == Seq::<(usize, Seq<String>)>::empty()
            && self.non_tag_pops@ == Seq::<(usize, Seq<String>)>::empty() && self.tags_low@
            == Seq::<(usize, Seq<String>)>::empty() && self.returns_low@ == Seq::<
            (usize, Seq<String>),
        >::empty() && self.hold_low@ == Seq::<(usize, Seq<String>)>::empty() && self.prevent_low@
            == Seq::<(usize, Seq<String>)>::empty() && self.quick_returns_low@ == Seq::<
            (usize, Seq<String>),
        >::empty()
    }

    pub open spec fn wf(self) -> bool {
        self.tags.wf() && self.returns.wf() && self.hold.wf() && self.prevent.wf()
            && self.quick_returns.wf() && self.non_tag_pops.wf() && self.tags_low.wf()
            && self.returns_low.wf() && self.hold_low.wf() && self.prevent_low.wf()
            && self.quick_returns_low.wf()
    }

    /// A full set of empty whole-game leaderboards.
    pub fn new() -> (r: CombinedGameLeaderboards)
        ensures
            r.wf(),
            r.is_empty(),
    {
        CombinedGameLeaderboards {
            tags: Leaderboard::new(),
            returns: Leaderboard::new(),
            hold: Leaderboard::new(),
            prevent: Leaderboard::new(),
            quick_returns: Leaderboard::new(),
            non_tag_pops: Leaderboard::new(),
            tags_low: Leaderboard::new(),
            returns_low: Leaderboard::new(),
            hold_low: Leaderboard::new(),
            prevent_low: Leaderboard::new(),
            quick_returns_low: Leaderboard::new(),
        }
    }
}

/// One match's combined record folded into a whole-game leaderboard set;
/// the non-tag pops are the pops not matched by a return, clamped at
/// zero.
pub open spec fn spec_insert_combined(
    v: CombinedBoardsView,
    match_id: String,
    s: PlayerGameStats,
) -> CombinedBoardsView {
    let ntp: usize = if s.pops >= s.returns {
        (s.pops - s.returns) as usize
    } else {
        0
    };
    CombinedBoardsView {
        tags: spec_lb_insert(v.tags, s.tags, match_id),
        returns: spec_lb_insert(v.returns, s.returns, match_id),
        hold: spec_lb_insert(v.hold, s.hold / 60, match_id),
        prevent: spec_lb_insert(v.prevent, s.prevent / 60, match_id),
        quick_returns: spec_lb_insert(v.quick_returns, s.quick_returns, match_id),
        non_tag_pops: spec_lb_insert(v.non_tag_pops, ntp, match_id),
        tags_low: spec_lb_insert(v.tags_low, s.tags, match_id),
        returns_low: spec_lb_insert(v.returns_low, s.returns, match_id),
        hold_low: spec_lb_insert(v.hold_low, s.hold / 60, match_id),
        prevent_low: spec_lb_insert(v.prevent_low, s.prevent / 60, match_id),
        quick_returns_low: spec_lb_insert(v.quick_returns_low, s.quick_returns, match_id),
    }
}

/// Every player's record summed into one whole-game total, from player
/// `i` on.
pub open spec fn spec_combined_totals(stats: Seq<PlayerGameStats>, i: int, acc: PlayerGameStats) -> PlayerGameStats
    decreases stats.len() - i,
{
    if i < 0 || i >= stats.len() {
        acc
    } else {
        spec_combined_totals(stats, i + 1, spec_add_stats(acc, stats[i]))
    }
}

/// The whole-game record book: one leaderboard set for the full game and
/// one for the first eight minutes.
#[derive(Debug)]
pub struct CombinedGameRecordsCollector {
    pub full: CombinedGameLeaderboards,
    pub first8: CombinedGameLeaderboards,
}

impl CombinedGameRecordsCollector {
    pub open spec fn wf(self) -> bool {
        self.full.wf() && self.first8.wf()
    }

    /// An empty whole-game record book.
    pub fn new() -> (r: CombinedGameRecordsCollector)
        ensures
            r.wf(),
            r.full.is_empty(),
            r.first8.is_empty(),
    {
        CombinedGameRecordsCollector {
            full: CombinedGameLeaderboards::new(),
            first8: CombinedGameLeaderboards::new(),
        }
    }

    /// Folds one entry into one whole-game board, as `spec_lb_insert`
    /// describes.
    pub fn insert_game_record(map: &mut Leaderboard<String>, match_id: String, value: usize)
        requires
            old(map).wf(),
        ensures
            final(map)@ == spec_lb_insert(old(map)@, value, match_id),
            final(map).wf(),
    {
        map.insert(value, match_id);
    }

    /// Folds one match's combined record into a whole-game leaderboard
    /// set, as `spec_insert_combined` describes.
    #[verifier::rlimit(100)]
    pub fn insert_combined_stats(
        board: &mut CombinedGameLeaderboards,
        match_id: String,
        stats: &PlayerGameStats,
    )
        requires
            old(board).wf(),
        ensures
            final(board).wf(),
            final(board)@ == spec_insert_combined(old(board)@, match_id, *stats),
    {
        let ntp: usize = if stats.pops >= stats.returns {
            stats.pops - stats.returns
        } else {
            0
        };
        board.tags.insert(stats.tags, match_id.clone());
        board.returns.insert(stats.returns, match_id.clone());
        board.hold.insert(stats.hold / 60, match_id.clone());
        board.prevent.insert(stats.prevent / 60, match_id.clone());
        board.quick_returns.insert(stats.quick_returns, match_id.clone());
        board.non_tag_pops.insert(ntp, match_id.clone());
        board.tags_low.insert(stats.tags, match_id.clone());
        board.returns_low.insert(stats.returns, match_id.clone());
        board.hold_low.insert(stats.hold / 60, match_id.clone());
        board.prevent_low.insert(stats.prevent / 60, match_id.clone());
        board.quick_returns_low.insert(stats.quick_returns, match_id);
    }

    /// Folds one match into the whole-game record book: every player's
    /// full-game and first-eight-minutes records are summed into one
    /// combined record each and filed by match. A match below the minimum
    /// lengths, with fewer than eight players, with an unreadable team
    /// code, or too large to count is left out and the book unchanged.
    #[verifier::rlimit(100)]
    pub fn process_match(&mut self, match_id: String, players: &Vec<PlayerLog>, duration: usize)
        requires
            old(self).wf(),
            forall|p: int|
                0 <= p < players@.len() ==> 8 * (#[trigger] players@[p]).events@.len()
                    <= usize::MAX,
            players@.len() <= TEAM_MAX_PLAYERS,
            duration <= TEAM_MAX_DURATION,
        ensures
            final(self).wf(),
            ({
                let all = spec_stable_sort_by_time(
                    spec_collect_events(Seq::empty(), players@, 0, duration, usize::MAX),
                );
                let f8 = spec_stable_sort_by_time(
                    spec_collect_events(Seq::empty(), players@, 0, duration, EIGHT_MINUTES),
                );
                let eligible = players@.len() >= 8 && duration >= MINIMUM_RANKED_MATCH_LENGTH
                    && duration >= MINIMUM_RECORD_MATCH_LENGTH && (forall|p: int|
                    0 <= p < players@.len() ==> (#[trigger] players@[p]).team <= 2) && all.len()
                    <= TEAM_MAX_TIMELINE_EVENTS && f8.len() <= TEAM_MAX_TIMELINE_EVENTS;
                if eligible {
                    let full = spec_finalize_seq(
                        spec_records_replay(
                            all,
                            0,
                            spec_init_stats(players@.len()),
                            None,
                            None,
                            duration,
                        ).0,
                        duration,
                        duration,
                    );
                    let first8 = spec_finalize_seq(
                        spec_records_replay(
                            f8,
                            0,
                            spec_init_stats(players@.len()),
                            None,
                            None,
                            EIGHT_MINUTES,
                        ).0,
                        duration,
                        EIGHT_MINUTES,
                    );
                    final(self).full@ == spec_insert_combined(
                        old(self).full@,
                        match_id,
                        spec_combined_totals(full, 0, PlayerGameStats::spec_init()),
                    ) && final(self).first8@ == spec_insert_combined(
                        old(self).first8@,
                        match_id,
                        spec_combined_totals(first8, 0, PlayerGameStats::spec_init()),
                    )
                } else {
                    *final(self) == *old(self)
                }
            }),
    {
        if players.len() < 8 {
            return ;
        }
        if duration < MINIMUM_RANKED_MATCH_LENGTH {
            return ;
        }
        if duration < MINIMUM_RECORD_MATCH_LENGTH {
            return ;
        }
        let mut q: usize = 0;
        while q < players.len()
            invariant
                q <= players@.len(),
                forall|p: int| 0 <= p < q ==> (#[trigger] players@[p]).team <= 2,
                *self == *old(self),
                old(self).wf(),
            decreases players@.len() - q,
        {
            if players[q].team > 2 {
                return ;
            }
            q = q + 1;
        }
        let collected = collect_records_events(players, duration);
        let all = stable_sort_by_time(&collected.0);
        let f8 = stable_sort_by_time(&collected.1);
        proof {
            crate::timeline::lemma_sort_bounds(collected.0@, players.len(), usize::MAX);
            crate::timeline::lemma_sort_bounds(collected.1@, players.len(), usize::MAX);
        }
        if all.len() > TEAM_MAX_TIMELINE_EVENTS {
            return ;
        }
        if f8.len() > TEAM_MAX_TIMELINE_EVENTS {
            return ;
        }
        let mut stats_full = replay_all(&all, players.len(), duration);
        let mut stats_f8 = replay_all(&f8, players.len(), EIGHT_MINUTES);
        let ghost pre_full = stats_full@;
        let ghost pre_f8 = stats_f8@;
        finalize_all(&mut stats_full, duration, duration);
        finalize_all(&mut stats_f8, duration, EIGHT_MINUTES);
        proof {
            assert forall|p: int| 0 <= p < players@.len() implies (#[trigger] stats_full@[p]).counters_below(
                TEAM_MAX_TIMELINE_EVENTS as int,
            ) && accums_below(stats_full@[p], duration) && stats_f8@[p].counters_below(
                TEAM_MAX_TIMELINE_EVENTS as int,
            ) && accums_below(stats_f8@[p], EIGHT_MINUTES) by {
                assert(stats_full@[p] == pre_full[p].spec_finalize(duration, duration));
                assert(stats_f8@[p] == pre_f8[p].spec_finalize(duration, EIGHT_MINUTES));
                lemma_finalize_accums(pre_full[p], duration, duration);
                lemma_finalize_accums(pre_f8[p], duration, EIGHT_MINUTES);
            }
            assert(stats_full@ =~= spec_finalize_seq(
                spec_records_replay(
                    all@,
                    0,
                    spec_init_stats(players@.len()),
                    None,
                    None,
                    duration,
                ).0,
                duration,
                duration,
            ));
            assert(stats_f8@ =~= spec_finalize_seq(
                spec_records_replay(
                    f8@,
                    0,
                    spec_init_stats(players@.len()),
                    None,
                    None,
                    EIGHT_MINUTES,
                ).0,
                duration,
                EIGHT_MINUTES,
            ));
        }
        let mut combined_full = PlayerGameStats::new();
        let mut combined_f8 = PlayerGameStats::new();
        let ghost whole_full = spec_combined_totals(stats_full@, 0, PlayerGameStats::spec_init());
        let ghost whole_f8 = spec_combined_totals(stats_f8@, 0, PlayerGameStats::spec_init());
        let mut i: usize = 0;
        while i < players.len()
            invariant
                i <= players@.len(),
                players@.len() <= TEAM_MAX_PLAYERS,
                duration <= TEAM_MAX_DURATION,
                players@.len() == stats_full@.len(),
                players@.len() == stats_f8@.len(),
                forall|p: int|
                    0 <= p < players@.len() ==> (#[trigger] stats_full@[p]).counters_below(
                        TEAM_MAX_TIMELINE_EVENTS as int,
                    ) && accums_below(stats_full@[p], duration) && stats_f8@[p].counters_below(
                        TEAM_MAX_TIMELINE_EVENTS as int,
                    ) && accums_below(stats_f8@[p], EIGHT_MINUTES),
                combined_full.counters_below((TEAM_MAX_TIMELINE_EVENTS as int) * (i as int)),
                combined_f8.counters_below((TEAM_MAX_TIMELINE_EVENTS as int) * (i as int)),
                combined_full.hold <= (duration as int) * (i as int),
                combined_full.prevent <= (duration as int) * (i as int),
                combined_f8.hold <= (EIGHT_MINUTES as int) * (i as int),
                combined_f8.prevent <= (EIGHT_MINUTES as int) * (i as int),
                spec_combined_totals(stats_full@, i as int, combined_full) == whole_full,
                spec_combined_totals(stats_f8@, i as int, combined_f8) == whole_f8,
            decreases players@.len() - i,
        {
            proof {
                assert((TEAM_MAX_TIMELINE_EVENTS as int) * (i as int) + TEAM_MAX_TIMELINE_EVENTS
                    <= (TEAM_MAX_TIMELINE_EVENTS as int) * (i as int + 1) && (
                TEAM_MAX_TIMELINE_EVENTS as int) * (i as int + 1) <= (TEAM_MAX_TIMELINE_EVENTS as int)
                    * (TEAM_MAX_PLAYERS as int)) by (nonlinear_arith)
                    requires
                        0 <= i < players@.len() <= TEAM_MAX_PLAYERS,
                ;
                assert((duration as int) * (i as int) + duration <= (duration as int) * (i as int
                    + 1) && (duration as int) * (i as int + 1) <= (TEAM_MAX_DURATION as int) * (
                TEAM_MAX_PLAYERS as int)) by (nonlinear_arith)
                    requires
                        0 <= i < players@.len() <= TEAM_MAX_PLAYERS && duration
                            <= TEAM_MAX_DURATION,
                ;
                assert((EIGHT_MINUTES as int) * (i as int) + EIGHT_MINUTES <= (
                EIGHT_MINUTES as int) * (i as int + 1) && (EIGHT_MINUTES as int) * (i as int + 1)
                    <= (EIGHT_MINUTES as int) * (TEAM_MAX_PLAYERS as int)) by (nonlinear_arith)
                    requires
                        0 <= i < players@.len() <= TEAM_MAX_PLAYERS,
                ;
            }
            TeamRecordsCollector::add_stats(&mut combined_full, &stats_full[i]);
            TeamRecordsCollector::add_stats(&mut combined_f8, &stats_f8[i]);
            i = i + 1;
        }
        Self::insert_combined_stats(&mut self.full, match_id.clone(), &combined_full);
        Self::insert_combined_stats(&mut self.first8, match_id, &combined_f8);
    }
}

/// The bottom rungs of a leaderboard, lowest value first: rungs whose
/// rank is within the first `n`, zeros included, whole rungs kept. `i` is
/// the next rung to visit, `rank` the rank of the next one taken.
pub open spec fn spec_bottom_ranked(
    s: Seq<(usize, Seq<(String, String)>)>,
    i: int,
    rank: nat,
    n: nat,
    is_win: bool,
    acc: Seq<(String, String, usize, bool)>,
) -> Seq<(String, String, usize, bool)>
    decreases s.len() - i,
{
    if i < 0 || i >= s.len() {
        acc
    } else if rank > n {
        acc
    } else {
        let e = s[i];
        spec_bottom_ranked(
            s,
            i + 1,
            rank + e.1.len(),
            n,
            is_win,
            spec_push_ranked(acc, e.1, 0, e.0, is_win),
        )
    }
}

/// The rows of one signed rung, in arrival order.
pub open spec fn spec_push_signed(
    acc: Seq<(String, String, isize, bool)>,
    items: Seq<(String, String)>,
    j: int,
    value: isize,
    is_win: bool,
) -> Seq<(String, String, isize, bool)>
    decreases items.len() - j,
{
    if j < 0 || j >= items.len() {
        acc
    } else {
        spec_push_signed(
            acc.push((items[j].0, items[j].1, value, is_win)),
            items,
            j + 1,
            value,
            is_win,
        )
    }
}

/// The top rungs of a signed leaderboard, highest value first, whole
/// rungs kept, zeros included.
pub open spec fn spec_top_signed(
    s: Seq<(isize, Seq<(String, String)>)>,
    i: int,
    rank: nat,
    n: nat,
    is_win: bool,
    acc: Seq<(String, String, isize, bool)>,
) -> Seq<(String, String, isize, bool)>
    decreases i,
{
    if i <= 0 {
        acc
    } else if rank > n {
        acc
    } else {
        let e = s[i - 1];
        spec_top_signed(
            s,
            i - 1,
            rank + e.1.len(),
            n,
            is_win,
            spec_push_signed(acc, e.1, 0, e.0, is_win),
        )
    }
}

/// The match rows of one whole-game rung, in arrival order.
pub open spec fn spec_push_games(
    acc: Seq<(String, usize)>,
    items: Seq<String>,
    j: int,
    value: usize,
) -> Seq<(String, usize)>
    decreases items.len() - j,
{
    if j < 0 || j >= items.len() {
        acc
    } else {
        spec_push_games(acc.push((items[j], value)), items, j + 1, value)
    }
}

/// The top rungs of a whole-game leaderboard, highest value first, zero
/// values skipped, whole rungs kept.
pub open spec fn spec_top_games(
    s: Seq<(usize, Seq<String>)>,
    i: int,
    rank: nat,
    n: nat,
    acc: Seq<(String, usize)>,
) -> Seq<(String, usize)>
    decreases i,
{
    if i <= 0 {
        acc
    } else {
        let e = s[i - 1];
        if e.0 == 0 {
            spec_top_games(s, i - 1, rank, n, acc)
        } else if rank > n {
            acc
        } else {
            spec_top_games(s, i - 1, rank + e.1.len(), n, spec_push_games(acc, e.1, 0, e.0))
        }
    }
}

/// The bottom rungs of a whole-game leaderboard, lowest value first,
/// zeros included, whole rungs kept.
pub open spec fn spec_bottom_games(
    s: Seq<(usize, Seq<String>)>,
    i: int,
    rank: nat,
    n: nat,
    acc: Seq<(String, usize)>,
) -> Seq<(String, usize)>
    decreases s.len() - i,
{
    if i < 0 || i >= s.len() {
        acc
    } else if rank > n {
        acc
    } else {
        let e = s[i];
        spec_bottom_games(s, i + 1, rank + e.1.len(), n, spec_push_games(acc, e.1, 0, e.0))
    }
}

impl Leaderboard<(String, String)> {
    /// The rungs within the bottom `n` ranks, lowest value first, zeros
    /// included, each rung tagged with win or loss status.
    pub fn get_bottom_n_with_status(&self, n: usize, is_win: bool) -> (r: Vec<
        (String, String, usize, bool),
    >)
        requires
            n < usize::MAX,
        ensures
            r@ == spec_bottom_ranked(self@, 0, 1, n as nat, is_win, Seq::empty()),
    {
        let mut results: Vec<(String, String, usize, bool)> = Vec::new();
        let mut current_rank: usize = 1;
        let ghost mut grank: nat = 1;
        let mut i: usize = 0;
        let ghost whole = spec_bottom_ranked(self@, 0, 1, n as nat, is_win, Seq::empty());
        loop
            invariant_except_break
                n < usize::MAX,
                i <= self@.len(),
                grank >= 1,
                current_rank as nat == if grank <= usize::MAX {
                    grank
                } else {
                    usize::MAX as nat
                },
                spec_bottom_ranked(self@, i as int, grank, n as nat, is_win, results@) == whole,
            ensures
                results@ == whole,
            decreases self@.len() - i,
        {
            if i >= self.entries.len() {
                break ;
            }
            if current_rank > n {
                break ;
            }
            proof {
                assert(self@[i as int].0 == self.entries@[i as int].0);
                assert(self@[i as int].1 == self.entries@[i as int].1@);
            }
            let ghost items = self@[i as int].1;
            let ghost res0 = results@;
            let rung = &self.entries[i];
            let value = rung.0;
            let mut k: usize = 0;
            let rung_len = rung.1.len();
            while k < rung_len
                invariant
                    k <= rung_len,
                    i < self@.len(),
                    rung_len == items.len(),
                    items == self@[i as int].1,
                    value == self@[i as int].0,
                    rung_len == rung.1@.len(),
                    rung.1@ == items,
                    rung.0 == value,
                    spec_push_ranked(results@, items, k as int, value, is_win)
                        == spec_push_ranked(res0, items, 0, value, is_win),
                decreases rung_len - k,
            {
                let pair = &rung.1[k];
                results.push((pair.0.clone(), pair.1.clone(), value, is_win));
                k = k + 1;
            }
            proof {
                grank = grank + items.len();
            }
            current_rank = if current_rank <= usize::MAX - rung_len {
                current_rank + rung_len
            } else {
                usize::MAX
            };
            i = i + 1;
        }
        results
    }
}

impl SignedLeaderboard<(String, String)> {
    /// The rungs within the top `n` ranks, highest value first, whole
    /// rungs kept, each tagged with win or loss status.
    pub fn get_top_n_signed(&self, n: usize, is_win: bool) -> (r: Vec<
        (String, String, isize, bool),
    >)
        requires
            n < usize::MAX,
        ensures
            r@ == spec_top_signed(self@, self@.len() as int, 1, n as nat, is_win, Seq::empty()),
    {
        let mut results: Vec<(String, String, isize, bool)> = Vec::new();
        let mut current_rank: usize = 1;
        let ghost mut grank: nat = 1;
        let mut i = self.entries.len();
        let ghost whole = spec_top_signed(self@, self@.len() as int, 1, n as nat, is_win, Seq::empty());
        loop
            invariant_except_break
                n < usize::MAX,
                i <= self@.len(),
                grank >= 1,
                current_rank as nat == if grank <= usize::MAX {
                    grank
                } else {
                    usize::MAX as nat
                },
                spec_top_signed(self@, i as int, grank, n as nat, is_win, results@) == whole,
            ensures
                results@ == whole,
            decreases i,
        {
            if i == 0 {
                break ;
            }
            if current_rank > n {
                break ;
            }
            proof {
                assert(self@[i - 1].0 == self.entries@[i as int - 1].0);
                assert(self@[i - 1].1 == self.entries@[i as int - 1].1@);
            }
            let ghost items = self@[i - 1].1;
            let ghost res0 = results@;
            let rung = &self.entries[i - 1];
            let value = rung.0;
            let mut k: usize = 0;
            let rung_len = rung.1.len();
            while k < rung_len
                invariant
                    k <= rung_len,
                    i >= 1,
                    i <= self@.len(),
                    rung_len == items.len(),
                    items == self@[i as int - 1].1,
                    value == self@[i as int - 1].0,
                    rung_len == rung.1@.len(),
                    rung.1@ == items,
                    rung.0 == value,
                    spec_push_signed(results@, items, k as int, value, is_win)
                        == spec_push_signed(res0, items, 0, value, is_win),
                decreases rung_len - k,
            {
                let pair = &rung.1[k];
                results.push((pair.0.clone(), pair.1.clone(), value, is_win));
                k = k + 1;
            }
            proof {
                grank = grank + items.len();
            }
            current_rank = if current_rank <= usize::MAX - rung_len {
                current_rank + rung_len
            } else {
                usize::MAX
            };
            i = i - 1;
        }
        results
    }
}

impl TeamRecordsCollector {
    /// The rungs within the top `n` ranks of one team board, highest
    /// first, zeros skipped.
    pub fn get_top_n_teams(
        map: &Leaderboard<(String, String)>,
        n: usize,
        is_win: bool,
    ) -> (r: Vec<(String, String, usize, bool)>)
        requires
            n < usize::MAX,
        ensures
            r@ == spec_top_ranked(map@, map@.len() as int, 1, n as nat, is_win, Seq::empty()),
    {
        map.get_top_n_with_status(n, is_win)
    }

    /// The rungs within the bottom `n` ranks of one team board, lowest
    /// first, zeros included.
    pub fn get_bottom_n_teams(
        map: &Leaderboard<(String, String)>,
        n: usize,
        is_win: bool,
    ) -> (r: Vec<(String, String, usize, bool)>)
        requires
            n < usize::MAX,
        ensures
            r@ == spec_bottom_ranked(map@, 0, 1, n as nat, is_win, Seq::empty()),
    {
        map.get_bottom_n_with_status(n, is_win)
    }

    /// The rungs within the top `n` ranks of the signed board, highest
    /// first.
    pub fn get_top_n_teams_signed(
        map: &SignedLeaderboard<(String, String)>,
        n: usize,
        is_win: bool,
    ) -> (r: Vec<(String, String, isize, bool)>)
        requires
            n < usize::MAX,
        ensures
            r@ == spec_top_signed(map@, map@.len() as int, 1, n as nat, is_win, Seq::empty()),
    {
        map.get_top_n_signed(n, is_win)
    }
}

impl Leaderboard<String> {
    /// The rungs within the top `n` ranks, highest value first, zeros
    /// skipped.
    pub fn get_top_games(&self, n: usize) -> (r: Vec<(String, usize)>)
        requires
            n < usize::MAX,
        ensures
            r@ == spec_top_games(self@, self@.len() as int, 1, n as nat, Seq::empty()),
    {
        let mut results: Vec<(String, usize)> = Vec::new();
        let mut current_rank: usize = 1;
        let ghost mut grank: nat = 1;
        let mut i = self.entries.len();
        let ghost whole = spec_top_games(self@, self@.len() as int, 1, n as nat, Seq::empty());
        loop
            invariant_except_break
                n < usize::MAX,
                i <= self@.len(),
                grank >= 1,
                current_rank as nat == if grank <= usize::MAX {
                    grank
                } else {
                    usize::MAX as nat
                },
                spec_top_games(self@, i as int, grank, n as nat, results@) == whole,
            ensures
                results@ == whole,
            decreases i,
        {
            if i == 0 {
                break ;
            }
            proof {
                assert(self@[i - 1].0 == self.entries@[i as int - 1].0);
                assert(self@[i - 1].1 == self.entries@[i as int - 1].1@);
            }
            let ghost items = self@[i - 1].1;
            let ghost res0 = results@;
            let rung = &self.entries[i - 1];
            let value = rung.0;
            if value == 0 {
                i = i - 1;
                continue ;
            }
            if current_rank > n {
                break ;
            }
            let mut k: usize = 0;
            let rung_len = rung.1.len();
            while k < rung_len
                invariant
                    k <= rung_len,
                    i >= 1,
                    i <= self@.len(),
                    rung_len == items.len(),
                    items == self@[i as int - 1].1,
                    value == self@[i as int - 1].0,
                    rung_len == rung.1@.len(),
                    rung.1@ == items,
                    rung.0 == value,
                    spec_push_games(results@, items, k as int, value) == spec_push_games(
                        res0,
                        items,
                        0,
                        value,
                    ),
                decreases rung_len - k,
            {
                results.push((rung.1[k].clone(), value));
                k = k + 1;
            }
            proof {
                grank = grank + items.len();
            }
            current_rank = if current_rank <= usize::MAX - rung_len {
                current_rank + rung_len
            } else {
                usize::MAX
            };
            i = i - 1;
        }
        results
    }

    /// The rungs within the bottom `n` ranks, lowest value first, zeros
    /// included.
    pub fn get_bottom_games(&self, n: usize) -> (r: Vec<(String, usize)>)
        requires
            n < usize::MAX,
        ensures
            r@ == spec_bottom_games(self@, 0, 1, n as nat, Seq::empty()),
    {
        let mut results: Vec<(String, usize)> = Vec::new();
        let mut current_rank: usize = 1;
        let ghost mut grank: nat = 1;
        let mut i: usize = 0;
        let ghost whole = spec_bottom_games(self@, 0, 1, n as nat, Seq::empty());
        loop
            invariant_except_break
                n < usize::MAX,
                i <= self@.len(),
                grank >= 1,
                current_rank as nat == if grank <= usize::MAX {
                    grank
                } else {
                    usize::MAX as nat
                },
                spec_bottom_games(self@, i as int, grank, n as nat, results@) == whole,
            ensures
                results@ == whole,
            decreases self@.len() - i,
        {
            if i >= self.entries.len() {
                break ;
            }
            if current_rank > n {
                break ;
            }
            proof {
                assert(self@[i as int].0 == self.entries@[i as int].0);
                assert(self@[i as int].1 == self.entries@[i as int].1@);
            }
            let ghost items = self@[i as int].1;
            let ghost res0 = results@;
            let rung = &self.entries[i];
            let value = rung.0;
            let mut k: usize = 0;
            let rung_len = rung.1.len();
            while k < rung_len
                invariant
                    k <= rung_len,
                    i < self@.len(),
                    rung_len == items.len(),
                    items == self@[i as int].1,
                    value == self@[i as int].0,
                    rung_len == rung.1@.len(),
                    rung.1@ == items,
                    rung.0 == value,
                    spec_push_games(results@, items, k as int, value) == spec_push_games(
                        res0,
                        items,
                        0,
                        value,
                    ),
                decreases rung_len - k,
            {
                results.push((rung.1[k].clone(), value));
                k = k + 1;
            }
            proof {
                grank = grank + items.len();
            }
            current_rank = if current_rank <= usize::MAX - rung_len {
                current_rank + rung_len
            } else {
                usize::MAX
            };
            i = i + 1;
        }
        results
    }
}

impl CombinedGameRecordsCollector {
    /// The rungs within the top `n` ranks of one whole-game board.
    pub fn get_top_n_games(map: &Leaderboard<String>, n: usize) -> (r: Vec<(String, usize)>)
        requires
            n < usize::MAX,
        ensures
            r@ == spec_top_games(map@, map@.len() as int, 1, n as nat, Seq::empty()),
    {
        map.get_top_games(n)
    }

    /// The rungs within the bottom `n` ranks of one whole-game board.
    pub fn get_bottom_n_games(map: &Leaderboard<String>, n: usize) -> (r: Vec<(String, usize)>)
        requires
            n < usize::MAX,
        ensures
            r@ == spec_bottom_games(map@, 0, 1, n as nat, Seq::empty()),
    {
        map.get_bottom_games(n)
    }
}

} // verus!
