use vstd::prelude::*;

verus! {

use crate::events_reader::{Event, Team};
use crate::timeline::spec_sorted_by_time;
use vstd::string::StringExecFns;

/// One event of the fused match timeline: the tick, the kind, the player
/// it belongs to, and that player's team.
#[derive(Debug, Clone, Copy)]
pub struct RelevantEvent {
    pub time: usize,
    pub event_type: Event,
    pub player_index: usize,
    pub team: Team,
}

/// One analyzable match's outcome: identity, final score differentials,
/// the two 4-player rosters, and one stat record per player.
#[derive(Debug, Clone)]
pub struct MatchResult<S> {
    pub match_id: String,
    pub timestamp: usize,
    pub map_id: usize,
    pub duration: usize,
    pub cap_diff: isize,
    pub garbage_time_cap_diff: isize,
    pub red_team: Vec<usize>,
    pub blue_team: Vec<usize>,
    pub player_stats: Vec<S>,
}

/// A pluggable rule set: one stat record shape per player, one dispatch
/// over the fused timeline, and an optional whole-timeline pass. The two
/// spec functions let each rule set state the invariant its record needs
/// at a timeline instant and the precondition of its whole-timeline pass.
pub trait StatConfig {
    type Stats;

    /// The invariant one player's record satisfies when the timeline has
    /// been replayed up to tick `time`.
    spec fn stat_inv(stats: Self::Stats, time: usize) -> bool;

    /// How much counting room a record has used; one dispatched event
    /// uses at most two steps of it.
    spec fn stat_level(stats: Self::Stats) -> int;

    /// The counting room a record may never exhaust.
    spec fn stat_cap() -> int;

    /// What the whole-timeline pass needs of the records and the
    /// timeline.
    spec fn post_ready(stats: Seq<Self::Stats>, all_events: Seq<RelevantEvent>) -> bool;

    /// A record that has counted nothing yet.
    spec fn stat_is_new(stats: Self::Stats) -> bool;

    /// What one dispatched event does: the two differentials, the four
    /// flag-carrier slots, and the records after it.
    spec fn spec_step(
        event: RelevantEvent,
        cap_diff: int,
        garbage_time_cap_diff: int,
        red_fc: Option<usize>,
        blue_fc: Option<usize>,
        red_grab_time: Option<usize>,
        blue_grab_time: Option<usize>,
        all_player_stats: Seq<Self::Stats>,
    ) -> (int, int, Option<usize>, Option<usize>, Option<usize>, Option<usize>, Seq<Self::Stats>);

    /// What the whole-timeline pass does to the records.
    spec fn spec_post(
        stats: Seq<Self::Stats>,
        all_events: Seq<RelevantEvent>,
        red_team: Seq<usize>,
        blue_team: Seq<usize>,
    ) -> Seq<Self::Stats>;

    /// The record invariant survives the clock moving forward.
    proof fn stat_inv_widen(stats: Self::Stats, t1: usize, t2: usize)
        requires
            Self::stat_inv(stats, t1),
            t1 <= t2,
        ensures
            Self::stat_inv(stats, t2),
    ;

    /// The event kinds this rule set consumes from a decoded stream.
    spec fn spec_relevant(e: Event) -> bool;

    /// Whether this rule set consumes events of one kind.
    fn is_relevant(e: Event) -> (r: bool)
        ensures
            r == Self::spec_relevant(e),
    ;

    /// A fresh, empty record, valid at any instant, with no counting room
    /// used.
    fn new_stats() -> (r: Self::Stats)
        ensures
            forall|t: usize| Self::stat_inv(r, t),
            Self::stat_level(r) == 0,
            Self::stat_is_new(r),
    ;

    /// Whether the whole-timeline pass may run on these records and this
    /// timeline.
    fn check_post_ready(
        all_events: &Vec<RelevantEvent>,
        all_player_stats: &Vec<Self::Stats>,
    ) -> (r: bool)
        ensures
            r == Self::post_ready(all_player_stats@, all_events@),
    ;

    /// Dispatches one fused event, exactly as the rule set's `spec_step`
    /// describes: it updates the acting player's record and the running
    /// match state, leaving every other record untouched and moving each
    /// differential by at most one capture.
    fn process_event(
        event: &RelevantEvent,
        cap_diff: &mut isize,
        garbage_time_cap_diff: &mut isize,
        match_duration: usize,
        red_fc: &mut Option<usize>,
        blue_fc: &mut Option<usize>,
        red_grab_time: &mut Option<usize>,
        blue_grab_time: &mut Option<usize>,
        all_player_stats: &mut Vec<Self::Stats>,
    )
        requires
            event.player_index < old(all_player_stats)@.len(),
            Self::stat_inv(old(all_player_stats)@[event.player_index as int], event.time),
            Self::stat_level(old(all_player_stats)@[event.player_index as int]) + 2
                <= Self::stat_cap(),
            isize::MIN < *old(cap_diff) < isize::MAX,
            isize::MIN < *old(garbage_time_cap_diff) < isize::MAX,
        ensures
            (
                *final(cap_diff) as int,
                *final(garbage_time_cap_diff) as int,
                *final(red_fc),
                *final(blue_fc),
                *final(red_grab_time),
                *final(blue_grab_time),
                final(all_player_stats)@,
            ) == Self::spec_step(
                *event,
                *old(cap_diff) as int,
                *old(garbage_time_cap_diff) as int,
                *old(red_fc),
                *old(blue_fc),
                *old(red_grab_time),
                *old(blue_grab_time),
                old(all_player_stats)@,
            ),
            final(all_player_stats)@.len() == old(all_player_stats)@.len(),
            forall|p: int|
                0 <= p < old(all_player_stats)@.len() && p != event.player_index
                    ==> final(all_player_stats)@[p] == old(all_player_stats)@[p],
            Self::stat_inv(final(all_player_stats)@[event.player_index as int], event.time),
            Self::stat_level(final(all_player_stats)@[event.player_index as int])
                <= Self::stat_level(old(all_player_stats)@[event.player_index as int]) + 2,
            *old(cap_diff) - 1 <= *final(cap_diff) <= *old(cap_diff) + 1,
            *old(garbage_time_cap_diff) - 1 <= *final(garbage_time_cap_diff) <= *old(
                garbage_time_cap_diff,
            ) + 1,
    ;

    /// A pass over the completed fused timeline, exactly as the rule
    /// set's `spec_post` describes; the record count never changes.
    fn post_process_stats(
        all_events: &Vec<RelevantEvent>,
        all_player_stats: &mut Vec<Self::Stats>,
        red_team: &Vec<usize>,
        blue_team: &Vec<usize>,
    )
        requires
            spec_sorted_by_time(all_events@),
            forall|i: int|
                0 <= i < all_events@.len() ==> #[trigger] all_events@[i].player_index < old(
                    all_player_stats,
                )@.len(),
            Self::post_ready(old(all_player_stats)@, all_events@),
        ensures
            final(all_player_stats)@ == Self::spec_post(
                old(all_player_stats)@,
                all_events@,
                red_team@,
                blue_team@,
            ),
            final(all_player_stats)@.len() == old(all_player_stats)@.len(),
    ;

    /// The texts of one record's stat cells, in the rule set's column
    /// order.
    spec fn spec_csv_values(stats: Self::Stats) -> Seq<Seq<char>>;

    /// One cell per tracked stat, in the rule set's column order, exactly
    /// as `spec_csv_values` describes.
    fn to_csv_values(stats: &Self::Stats) -> (r: Vec<String>)
        ensures
            crate::numfmt::spec_views_of(r@) == Self::spec_csv_values(*stats),
    ;

    /// The rule set's column names, in `to_csv_values` order.
    fn stat_fields() -> Vec<String>;

    /// The CSV header row: the match identity columns, one column per
    /// rostered player's name, then one column per player and stat.
    fn generate_csv_header() -> String {
        let mut header_parts: Vec<String> = Vec::new();
        header_parts.push(String::from_str("match_id"));
        header_parts.push(String::from_str("map_id"));
        header_parts.push(String::from_str("timestamp"));
        header_parts.push(String::from_str("duration"));
        header_parts.push(String::from_str("cap_diff"));
        header_parts.push(String::from_str("garbage_time_cap_diff"));
        let slots = player_slot_names();
        let mut i: usize = 0;
        while i < slots.len()
            decreases slots@.len() - i,
        {
            header_parts.push(slots[i].clone());
            i = i + 1;
        }
        let fields = Self::stat_fields();
        let mut p: usize = 0;
        while p < slots.len()
            decreases slots@.len() - p,
        {
            let mut f: usize = 0;
            while f < fields.len()
                invariant
                    p < slots@.len(),
                decreases fields@.len() - f,
            {
                let mut cell = slots[p].clone();
                cell.append("_");
                cell.append(fields[f].as_str());
                header_parts.push(cell);
                f = f + 1;
            }
            p = p + 1;
        }
        crate::numfmt::join_comma(&header_parts)
    }
}

/// The eight roster slot names, red team first.
pub fn player_slot_names() -> (r: Vec<String>)
    ensures
        r@.len() == 8,
{
    let mut slots: Vec<String> = Vec::new();
    slots.push(String::from_str("r1"));
    slots.push(String::from_str("r2"));
    slots.push(String::from_str("r3"));
    slots.push(String::from_str("r4"));
    slots.push(String::from_str("b1"));
    slots.push(String::from_str("b2"));
    slots.push(String::from_str("b3"));
    slots.push(String::from_str("b4"));
    slots
}

/// A player name wrapped in double quotes.
pub open spec fn spec_quoted(name: String) -> Seq<char> {
    seq!['"'] + name@ + seq!['"']
}

/// The quoted names of a roster appended to the row cells, in roster
/// order.
pub open spec fn spec_roster_name_cells(
    acc: Seq<Seq<char>>,
    names: Seq<String>,
    roster: Seq<usize>,
    k: int,
) -> Seq<Seq<char>>
    decreases roster.len() - k,
{
    if k < 0 || k >= roster.len() {
        acc
    } else {
        spec_roster_name_cells(acc.push(spec_quoted(names[roster[k] as int])), names, roster, k + 1)
    }
}

/// The stat cells of a roster's records appended to the row cells, in
/// roster order.
pub open spec fn spec_roster_stat_cells<C: StatConfig>(
    acc: Seq<Seq<char>>,
    stats: Seq<C::Stats>,
    roster: Seq<usize>,
    k: int,
) -> Seq<Seq<char>>
    decreases roster.len() - k,
{
    if k < 0 || k >= roster.len() {
        acc
    } else {
        spec_roster_stat_cells::<C>(
            acc + C::spec_csv_values(stats[roster[k] as int]),
            stats,
            roster,
            k + 1,
        )
    }
}

/// The cells of one result row: the identity and differential cells, the
/// quoted names of the red then the blue roster, then those players'
/// stat cells in the same order.
pub open spec fn spec_row_cells<C: StatConfig>(
    m: MatchResult<C::Stats>,
    names: Seq<String>,
) -> Seq<Seq<char>> {
    let idcells = seq![
        m.match_id@,
        crate::numfmt::spec_decimal(m.map_id as nat),
        crate::numfmt::spec_decimal(m.timestamp as nat),
        crate::numfmt::spec_decimal(m.duration as nat),
        crate::numfmt::spec_decimal_signed(m.cap_diff as int),
        crate::numfmt::spec_decimal_signed(m.garbage_time_cap_diff as int),
    ];
    let c1 = spec_roster_name_cells(idcells, names, m.red_team@, 0);
    let c2 = spec_roster_name_cells(c1, names, m.blue_team@, 0);
    let c3 = spec_roster_stat_cells::<C>(c2, m.player_stats@, m.red_team@, 0);
    spec_roster_stat_cells::<C>(c3, m.player_stats@, m.blue_team@, 0)
}

impl<S> MatchResult<S> {
    /// One CSV row of this result: the comma-join of the match identity
    /// and differential cells, the rostered players' quoted names in
    /// red-then-blue order, then each rostered player's stat cells in the
    /// rule set's column order.
    #[verifier::rlimit(100)]
    pub fn to_csv_row<C: StatConfig<Stats = S>>(&self, player_names: &Vec<String>) -> (s: String)
        requires
            forall|k: int|
                0 <= k < self.red_team@.len() ==> (#[trigger] self.red_team@[k])
                    < player_names@.len() && self.red_team@[k] < self.player_stats@.len(),
            forall|k: int|
                0 <= k < self.blue_team@.len() ==> (#[trigger] self.blue_team@[k])
                    < player_names@.len() && self.blue_team@[k] < self.player_stats@.len(),
        ensures
            s@ == crate::numfmt::spec_join_comma(
                spec_row_cells::<C>(*self, player_names@),
                0,
                Seq::empty(),
            ),
    {
        proof {
            reveal_strlit("\"");
        }
        let ghost idcells = seq![
            self.match_id@,
            crate::numfmt::spec_decimal(self.map_id as nat),
            crate::numfmt::spec_decimal(self.timestamp as nat),
            crate::numfmt::spec_decimal(self.duration as nat),
            crate::numfmt::spec_decimal_signed(self.cap_diff as int),
            crate::numfmt::spec_decimal_signed(self.garbage_time_cap_diff as int),
        ];
        let mut cells: Vec<String> = Vec::new();
        cells.push(self.match_id.clone());
        cells.push(crate::numfmt::usize_to_string(self.map_id));
        cells.push(crate::numfmt::usize_to_string(self.timestamp));
        cells.push(crate::numfmt::usize_to_string(self.duration));
        cells.push(crate::numfmt::isize_to_string(self.cap_diff));
        cells.push(crate::numfmt::isize_to_string(self.garbage_time_cap_diff));
        proof {
            assert(crate::numfmt::spec_views_of(cells@) =~= idcells);
        }
        let mut k: usize = 0;
        while k < self.red_team.len()
            invariant
                k <= self.red_team@.len(),
                forall|m: int|
                    0 <= m < self.red_team@.len() ==> (#[trigger] self.red_team@[m])
                        < player_names@.len(),
                "\""@ == seq!['"'],
                spec_roster_name_cells(
                    crate::numfmt::spec_views_of(cells@),
                    player_names@,
                    self.red_team@,
                    k as int,
                ) == spec_roster_name_cells(idcells, player_names@, self.red_team@, 0),
            decreases self.red_team@.len() - k,
        {
            let mut quoted = String::from_str("\"");
            quoted.append(player_names[self.red_team[k]].as_str());
            quoted.append("\"");
            proof {
                crate::numfmt::lemma_views_push(cells@, quoted);
            }
            cells.push(quoted);
            k = k + 1;
        }
        let ghost c1 = crate::numfmt::spec_views_of(cells@);
        let mut k2: usize = 0;
        while k2 < self.blue_team.len()
            invariant
                k2 <= self.blue_team@.len(),
                forall|m: int|
                    0 <= m < self.blue_team@.len() ==> (#[trigger] self.blue_team@[m])
                        < player_names@.len(),
                "\""@ == seq!['"'],
                spec_roster_name_cells(
                    crate::numfmt::spec_views_of(cells@),
                    player_names@,
                    self.blue_team@,
                    k2 as int,
                ) == spec_roster_name_cells(c1, player_names@, self.blue_team@, 0),
            decreases self.blue_team@.len() - k2,
        {
            let mut quoted = String::from_str("\"");
            quoted.append(player_names[self.blue_team[k2]].as_str());
            quoted.append("\"");
            proof {
                crate::numfmt::lemma_views_push(cells@, quoted);
            }
            cells.push(quoted);
            k2 = k2 + 1;
        }
        let ghost c2 = crate::numfmt::spec_views_of(cells@);
        let mut k3: usize = 0;
        while k3 < self.red_team.len()
            invariant
                k3 <= self.red_team@.len(),
                forall|m: int|
                    0 <= m < self.red_team@.len() ==> (#[trigger] self.red_team@[m])
                        < self.player_stats@.len(),
                spec_roster_stat_cells::<C>(
                    crate::numfmt::spec_views_of(cells@),
                    self.player_stats@,
                    self.red_team@,
                    k3 as int,
                ) == spec_roster_stat_cells::<C>(c2, self.player_stats@, self.red_team@, 0),
            decreases self.red_team@.len() - k3,
        {
            let mut stat_cells = C::to_csv_values(&self.player_stats[self.red_team[k3]]);
            proof {
                crate::numfmt::lemma_views_concat(cells@, stat_cells@);
            }
            cells.append(&mut stat_cells);
            k3 = k3 + 1;
        }
        let ghost c3 = crate::numfmt::spec_views_of(cells@);
        let mut k4: usize = 0;
        while k4 < self.blue_team.len()
            invariant
                k4 <= self.blue_team@.len(),
                forall|m: int|
                    0 <= m < self.blue_team@.len() ==> (#[trigger] self.blue_team@[m])
                        < self.player_stats@.len(),
                spec_roster_stat_cells::<C>(
                    crate::numfmt::spec_views_of(cells@),
                    self.player_stats@,
                    self.blue_team@,
                    k4 as int,
                ) == spec_roster_stat_cells::<C>(c3, self.player_stats@, self.blue_team@, 0),
            decreases self.blue_team@.len() - k4,
        {
            let mut stat_cells = C::to_csv_values(&self.player_stats[self.blue_team[k4]]);
            proof {
                crate::numfmt::lemma_views_concat(cells@, stat_cells@);
            }
            cells.append(&mut stat_cells);
            k4 = k4 + 1;
        }
        crate::numfmt::join_comma(&cells)
    }
}

} // verus!
