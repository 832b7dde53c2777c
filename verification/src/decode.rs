use vstd::prelude::*;

verus! {

use crate::events_reader::{
    Team,
    Flag,
    Event,
    PlayerEvent,
    EventsReader,
    spec_read_bool,
    spec_read_tally,
    spec_read_fixed,
    spec_read_footer,
    lemma_read_fixed_bound,
    lemma_read_tally_bound,
    lemma_read_footer_bound,
};

/// The per-player state the decoder carries from one tick to the next:
/// current team, carried flag, powerup bitmask, the three toggles, and the
/// current tick.
#[derive(Clone, Copy, PartialEq, Eq, Structural, Debug)]
pub struct DecodeState {
    pub team: Team,
    pub flag: Flag,
    pub powerups: usize,
    pub preventing: bool,
    pub buttoning: bool,
    pub blocking: bool,
    pub time: usize,
}

/// The leading bit fields of one tick: team change, pop, returns, tags,
/// grab, captures, and the flag bookkeeping they need.
#[derive(Clone, Copy, PartialEq, Eq, Structural, Debug)]
pub struct TickHead {
    pub new_team: Team,
    pub pop_occurred: bool,
    pub num_returns: usize,
    pub num_tags: usize,
    pub grab_occurred: bool,
    pub num_captures: usize,
    pub flag_kept: bool,
    pub new_flag: Flag,
}

/// The trailing bit fields of one tick: the four powerup slots, leftover
/// duplicate powerups, the three toggles, and the time delta.
#[derive(Clone, Copy, PartialEq, Eq, Structural, Debug)]
pub struct TickTail {
    pub lost_bit1: bool,
    pub gained_bit1: bool,
    pub lost_bit2: bool,
    pub gained_bit2: bool,
    pub lost_bit4: bool,
    pub gained_bit4: bool,
    pub lost_bit8: bool,
    pub gained_bit8: bool,
    pub num_dup: usize,
    pub toggle_preventing: bool,
    pub toggle_buttoning: bool,
    pub toggle_blocking: bool,
    pub delta: usize,
}

/// Everything one tick's bit fields decode to, before any event is emitted.
#[derive(Clone, Copy, PartialEq, Eq, Structural, Debug)]
pub struct TickFields {
    pub head: TickHead,
    pub tail: TickTail,
}

/// A decoded event value.
pub open spec fn mk_event(
    event_type: Event,
    time: usize,
    flag: Flag,
    powerups: usize,
    team: Team,
) -> PlayerEvent {
    PlayerEvent { event_type, time, flag, powerups, team }
}

/// The team a team-change bit pair selects, given the old team: from no
/// team the direction bit picks red or blue; from a real team a clear
/// direction bit switches sides and a set one leaves the team.
pub open spec fn spec_team_change(team: Team, dir: bool) -> Team {
    match (team, dir) {
        (Team::Neutral, false) => Team::Red,
        (Team::Neutral, true) => Team::Blue,
        (Team::Red, false) => Team::Blue,
        (Team::Blue, false) => Team::Red,
        _ => Team::Neutral,
    }
}

/// The carried flag variant selected by a 2-bit code offset by one.
pub open spec fn spec_flag_from_code(v: usize) -> Flag {
    if v == 1 {
        Flag::Opponent
    } else if v == 2 {
        Flag::OpponentPotato
    } else if v == 3 {
        Flag::Neutral
    } else {
        Flag::NeutralPotato
    }
}

/// One powerup slot's field: a held slot reads a "lost" bit; an empty slot
/// reads a "gained" bit while newly acquired powerups remain to place.
/// Yields (gained, lost, powerups still to place, cursor).
pub open spec fn spec_powerup_bit(data: Seq<u8>, pos: nat, held: bool, remaining: nat) -> (
    bool,
    bool,
    nat,
    nat,
) {
    if held {
        let (b, p) = spec_read_bool(data, pos);
        (false, b, remaining, p)
    } else if remaining != 0 {
        let (b, p) = spec_read_bool(data, pos);
        (b, false, if b { (remaining - 1) as nat } else { remaining }, p)
    } else {
        (false, false, remaining, pos)
    }
}

/// The leading bit fields of one tick, in the exact order the format
/// stores them.
pub open spec fn spec_tick_head(data: Seq<u8>, pos: nat, st: DecodeState) -> (TickHead, nat) {
    let (team_change, p1) = spec_read_bool(data, pos);
    let (new_team, p2) = if team_change {
        let (dir, pd) = spec_read_bool(data, p1);
        (spec_team_change(st.team, dir), pd)
    } else {
        (st.team, p1)
    };
    let (pop_occurred, p3) = spec_read_bool(data, p2);
    let (num_returns, p4) = spec_read_tally(data, p3);
    let (num_tags, p5) = spec_read_tally(data, p4);
    let (grab_occurred, p6) = if st.flag == Flag::NoFlag {
        spec_read_bool(data, p5)
    } else {
        (false, p5)
    };
    let (num_captures, p7) = spec_read_tally(data, p6);
    let (flag_kept, p8) = if !pop_occurred && new_team != Team::Neutral {
        if num_captures == 0 || (st.flag == Flag::NoFlag && !grab_occurred) {
            (true, p7)
        } else {
            spec_read_bool(data, p7)
        }
    } else {
        (false, p7)
    };
    let (new_flag, p9) = if grab_occurred {
        if flag_kept {
            let (v, pv) = spec_read_fixed(data, p8, 2);
            (spec_flag_from_code((1 + v) as usize), pv)
        } else {
            (Flag::Temporary, p8)
        }
    } else {
        (st.flag, p8)
    };
    (
        TickHead {
            new_team,
            pop_occurred,
            num_returns: num_returns as usize,
            num_tags: num_tags as usize,
            grab_occurred,
            num_captures: num_captures as usize,
            flag_kept,
            new_flag,
        },
        p9,
    )
}

/// The trailing bit fields of one tick, in the exact order the format
/// stores them.
pub open spec fn spec_tick_tail(data: Seq<u8>, pos: nat, powerups: usize) -> (TickTail, nat) {
    let (num_new, p10) = spec_read_tally(data, pos);
    let (gained_bit1, lost_bit1, rem1, p11) = spec_powerup_bit(data, p10, powerups & 1 != 0, num_new);
    let (gained_bit2, lost_bit2, rem2, p12) = spec_powerup_bit(data, p11, powerups & 2 != 0, rem1);
    let (gained_bit4, lost_bit4, rem4, p13) = spec_powerup_bit(data, p12, powerups & 4 != 0, rem2);
    let (gained_bit8, lost_bit8, rem8, p14) = spec_powerup_bit(data, p13, powerups & 8 != 0, rem4);
    let (toggle_preventing, p15) = spec_read_bool(data, p14);
    let (toggle_buttoning, p16) = spec_read_bool(data, p15);
    let (toggle_blocking, p17) = spec_read_bool(data, p16);
    let (footer, p18) = spec_read_footer(data, p17);
    (
        TickTail {
            lost_bit1,
            gained_bit1,
            lost_bit2,
            gained_bit2,
            lost_bit4,
            gained_bit4,
            lost_bit8,
            gained_bit8,
            num_dup: rem8 as usize,
            toggle_preventing,
            toggle_buttoning,
            toggle_blocking,
            delta: (1 + footer) as usize,
        },
        p18,
    )
}

/// One tick's bit fields, in the exact order the format stores them.
pub open spec fn spec_tick_fields(data: Seq<u8>, pos: nat, st: DecodeState) -> (TickFields, nat) {
    let (head, p) = spec_tick_head(data, pos, st);
    let (tail, q) = spec_tick_tail(data, p, st.powerups);
    (TickFields { head, tail }, q)
}

/// `n` copies of one event appended to the stream decoded so far.
pub open spec fn spec_push_repeat(acc: Seq<PlayerEvent>, n: nat, ev: PlayerEvent) -> Seq<
    PlayerEvent,
>
    decreases n,
{
    if n == 0 {
        acc
    } else {
        spec_push_repeat(acc.push(ev), (n - 1) as nat, ev)
    }
}

/// The events a capture tally appends: a capture while carrying an unkept
/// flag scores as `Capture` and releases the flag; every other capture of
/// the tally scores as `FlaglessCapture`.
pub open spec fn spec_captures(
    acc: Seq<PlayerEvent>,
    n: nat,
    flag: Flag,
    kept: bool,
    time: usize,
    powerups: usize,
    team: Team,
) -> (Seq<PlayerEvent>, Flag)
    decreases n,
{
    if n == 0 {
        (acc, flag)
    } else if kept || flag == Flag::NoFlag {
        spec_captures(
            acc.push(mk_event(Event::FlaglessCapture, time, flag, powerups, team)),
            (n - 1) as nat,
            flag,
            kept,
            time,
            powerups,
            team,
        )
    } else {
        spec_captures(
            acc.push(mk_event(Event::Capture, time, flag, powerups, team)),
            (n - 1) as nat,
            Flag::NoFlag,
            true,
            time,
            powerups,
            team,
        )
    }
}

/// One powerup slot's emission: a lost slot clears its bit and appends
/// `Powerdown`, a gained slot sets its bit and appends `Powerup`, each
/// with the updated bitmask.
pub open spec fn spec_pup_step(
    acc: Seq<PlayerEvent>,
    lost: bool,
    gained: bool,
    bit: usize,
    powerups: usize,
    time: usize,
    flag: Flag,
    team: Team,
) -> (Seq<PlayerEvent>, usize) {
    if lost {
        (acc.push(mk_event(Event::Powerdown, time, flag, powerups ^ bit, team)), powerups ^ bit)
    } else if gained {
        (acc.push(mk_event(Event::Powerup, time, flag, powerups | bit, team)), powerups | bit)
    } else {
        (acc, powerups)
    }
}

/// One toggle's emission: a set toggle bit flips the state and appends the
/// matching start or stop event.
pub open spec fn spec_toggle_step(
    acc: Seq<PlayerEvent>,
    toggle: bool,
    cur: bool,
    start_ev: Event,
    stop_ev: Event,
    time: usize,
    flag: Flag,
    powerups: usize,
    team: Team,
) -> (Seq<PlayerEvent>, bool) {
    if toggle {
        if cur {
            (acc.push(mk_event(stop_ev, time, flag, powerups, team)), false)
        } else {
            (acc.push(mk_event(start_ev, time, flag, powerups, team)), true)
        }
    } else {
        (acc, cur)
    }
}

/// The tick's leading emissions: the join on entering a team, then
/// returns, tags, the grab, and the capture tally. Yields the stream and
/// the flag state after the captures.
pub open spec fn spec_emit_front(
    acc: Seq<PlayerEvent>,
    st: DecodeState,
    h: TickHead,
    time: usize,
    team: Team,
) -> (Seq<PlayerEvent>, Flag) {
    let a1 = if st.team == Team::Neutral && h.new_team != Team::Neutral {
        acc.push(mk_event(Event::Join, time, st.flag, st.powerups, team))
    } else {
        acc
    };
    let a2 = spec_push_repeat(
        a1,
        h.num_returns as nat,
        mk_event(Event::Return, time, st.flag, st.powerups, team),
    );
    let a3 = spec_push_repeat(
        a2,
        h.num_tags as nat,
        mk_event(Event::Tag, time, st.flag, st.powerups, team),
    );
    let flag1 = if h.grab_occurred {
        h.new_flag
    } else {
        st.flag
    };
    let a4 = if h.grab_occurred {
        a3.push(mk_event(Event::Grab, time, flag1, st.powerups, team))
    } else {
        a3
    };
    spec_captures(a4, h.num_captures as nat, flag1, h.flag_kept, time, st.powerups, team)
}

/// The tick's powerup emissions: the four slots in bit order, then any
/// leftover duplicate powerups. Yields the stream and the final bitmask.
pub open spec fn spec_emit_pups(
    acc: Seq<PlayerEvent>,
    t: TickTail,
    powerups: usize,
    time: usize,
    flag2: Flag,
    team: Team,
) -> (Seq<PlayerEvent>, usize) {
    let (a1, pu1) = spec_pup_step(acc, t.lost_bit1, t.gained_bit1, 1, powerups, time, flag2, team);
    let (a2, pu2) = spec_pup_step(a1, t.lost_bit2, t.gained_bit2, 2, pu1, time, flag2, team);
    let (a3, pu4) = spec_pup_step(a2, t.lost_bit4, t.gained_bit4, 4, pu2, time, flag2, team);
    let (a4, pu8) = spec_pup_step(a3, t.lost_bit8, t.gained_bit8, 8, pu4, time, flag2, team);
    let a5 = spec_push_repeat(
        a4,
        t.num_dup as nat,
        mk_event(Event::DuplicatePowerup, time, flag2, pu8, team),
    );
    (a5, pu8)
}

/// The tick's closing emissions: the three toggles, the drop or pop, and
/// the quit or switch, with the state carried to the next tick.
pub open spec fn spec_emit_close(
    acc: Seq<PlayerEvent>,
    st: DecodeState,
    pop_occurred: bool,
    new_team: Team,
    t: TickTail,
    flag2: Flag,
    pu: usize,
    time: usize,
    team: Team,
) -> (Seq<PlayerEvent>, DecodeState) {
    let (a1, preventing) = spec_toggle_step(
        acc,
        t.toggle_preventing,
        st.preventing,
        Event::StartPrevent,
        Event::StopPrevent,
        time,
        flag2,
        pu,
        team,
    );
    let (a2, buttoning) = spec_toggle_step(
        a1,
        t.toggle_buttoning,
        st.buttoning,
        Event::StartButton,
        Event::StopButton,
        time,
        flag2,
        pu,
        team,
    );
    let (a3, blocking) = spec_toggle_step(
        a2,
        t.toggle_blocking,
        st.blocking,
        Event::StartBlock,
        Event::StopBlock,
        time,
        flag2,
        pu,
        team,
    );
    let (a4, flag3) = if pop_occurred {
        if flag2 != Flag::NoFlag {
            (a3.push(mk_event(Event::Drop, time, flag2, pu, team)), Flag::NoFlag)
        } else {
            (a3.push(mk_event(Event::Pop, time, flag2, pu, team)), flag2)
        }
    } else {
        (a3, flag2)
    };
    let (a5, flag4, pu9) = if new_team == team {
        (a4, flag3, pu)
    } else if new_team == Team::Neutral {
        (a4.push(mk_event(Event::Quit, time, flag3, pu, team)), Flag::NoFlag, 0usize)
    } else {
        (a4.push(mk_event(Event::Switch, time, flag3, pu, team)), Flag::NoFlag, pu)
    };
    (a5, DecodeState { team, flag: flag4, powerups: pu9, preventing, buttoning, blocking, time })
}

/// The tick time after the decoded delta, saturating at the largest
/// representable tick.
pub open spec fn spec_tick_time(st: DecodeState, f: TickFields) -> usize {
    if st.time + f.tail.delta <= usize::MAX {
        (st.time + f.tail.delta) as usize
    } else {
        usize::MAX
    }
}

/// The team carried through the tick: entering a real team from no team
/// takes effect at the join; other changes are only recorded in the quit
/// or switch event.
pub open spec fn spec_tick_team(st: DecodeState, f: TickFields) -> Team {
    if st.team == Team::Neutral && f.head.new_team != Team::Neutral {
        f.head.new_team
    } else {
        st.team
    }
}

/// The events one tick appends to the stream decoded so far, in emission
/// order, together with the state carried to the next tick.
pub open spec fn spec_tick_emit(acc: Seq<PlayerEvent>, st: DecodeState, f: TickFields) -> (
    Seq<PlayerEvent>,
    DecodeState,
) {
    let time = spec_tick_time(st, f);
    let team = spec_tick_team(st, f);
    let (a1, flag2) = spec_emit_front(acc, st, f.head, time, team);
    let (a2, pu) = spec_emit_pups(a1, f.tail, st.powerups, time, flag2, team);
    spec_emit_close(a2, st, f.head.pop_occurred, f.head.new_team, f.tail, flag2, pu, time, team)
}

/// One whole tick: its bit fields, then its emitted events.
pub open spec fn spec_decode_tick(data: Seq<u8>, pos: nat, st: DecodeState, acc: Seq<PlayerEvent>) -> (
    Seq<PlayerEvent>,
    DecodeState,
    nat,
) {
    let (f, p) = spec_tick_fields(data, pos, st);
    let (evs, st2) = spec_tick_emit(acc, st, f);
    (evs, st2, p)
}

/// A tick's leading fields consume at least one bit while any input
/// remains, and the cursor never leaves the buffer.
pub proof fn lemma_tick_head_pos(data: Seq<u8>, pos: nat, st: DecodeState)
    requires
        pos < 8 * data.len(),
    ensures
        pos < spec_tick_head(data, pos, st).1,
        spec_tick_head(data, pos, st).1 <= 8 * data.len(),
{
    let (team_change, p1) = spec_read_bool(data, pos);
    let (new_team, p2) = if team_change {
        let (dir, pd) = spec_read_bool(data, p1);
        (spec_team_change(st.team, dir), pd)
    } else {
        (st.team, p1)
    };
    let (pop_occurred, p3) = spec_read_bool(data, p2);
    let (num_returns, p4) = spec_read_tally(data, p3);
    let (num_tags, p5) = spec_read_tally(data, p4);
    let (grab_occurred, p6) = if st.flag == Flag::NoFlag {
        spec_read_bool(data, p5)
    } else {
        (false, p5)
    };
    let (num_captures, p7) = spec_read_tally(data, p6);
    let (flag_kept, p8) = if !pop_occurred && new_team != Team::Neutral {
        if num_captures == 0 || (st.flag == Flag::NoFlag && !grab_occurred) {
            (true, p7)
        } else {
            spec_read_bool(data, p7)
        }
    } else {
        (false, p7)
    };
    assert(pos < p1 <= 8 * data.len());
    assert(p1 <= p2 <= 8 * data.len());
    assert(p2 <= p3 <= 8 * data.len());
    assert(p3 <= p4 <= 8 * data.len()) by {
        lemma_read_tally_bound(data, p3);
    }
    assert(p4 <= p5 <= 8 * data.len()) by {
        lemma_read_tally_bound(data, p4);
    }
    assert(p5 <= p6 <= 8 * data.len());
    assert(p6 <= p7 <= 8 * data.len()) by {
        lemma_read_tally_bound(data, p6);
    }
    assert(p7 <= p8 <= 8 * data.len());
    assert(p8 <= spec_tick_head(data, pos, st).1 <= 8 * data.len()) by {
        lemma_read_fixed_bound(data, p8, 2);
    }
}

/// A tick's trailing fields never move the cursor backward or out of the
/// buffer.
pub proof fn lemma_tick_tail_pos(data: Seq<u8>, pos: nat, powerups: usize)
    requires
        pos <= 8 * data.len(),
    ensures
        pos <= spec_tick_tail(data, pos, powerups).1,
        spec_tick_tail(data, pos, powerups).1 <= 8 * data.len(),
{
    let (num_new, p10) = spec_read_tally(data, pos);
    let (gained_bit1, lost_bit1, rem1, p11) = spec_powerup_bit(data, p10, powerups & 1 != 0, num_new);
    let (gained_bit2, lost_bit2, rem2, p12) = spec_powerup_bit(data, p11, powerups & 2 != 0, rem1);
    let (gained_bit4, lost_bit4, rem4, p13) = spec_powerup_bit(data, p12, powerups & 4 != 0, rem2);
    let (gained_bit8, lost_bit8, rem8, p14) = spec_powerup_bit(data, p13, powerups & 8 != 0, rem4);
    let (toggle_preventing, p15) = spec_read_bool(data, p14);
    let (toggle_buttoning, p16) = spec_read_bool(data, p15);
    let (toggle_blocking, p17) = spec_read_bool(data, p16);
    assert(pos <= p10 <= 8 * data.len()) by {
        lemma_read_tally_bound(data, pos);
    }
    assert(p10 <= p11 <= 8 * data.len());
    assert(p11 <= p12 <= 8 * data.len());
    assert(p12 <= p13 <= 8 * data.len());
    assert(p13 <= p14 <= 8 * data.len());
    assert(p14 <= p15 <= 8 * data.len());
    assert(p15 <= p16 <= 8 * data.len());
    assert(p16 <= p17 <= 8 * data.len());
    assert(p17 <= spec_tick_tail(data, pos, powerups).1 <= 8 * data.len()) by {
        lemma_read_footer_bound(data, p17);
    }
}

/// A whole tick's fields consume at least one bit while any input remains,
/// and the cursor never leaves the buffer.
pub proof fn lemma_tick_fields_pos(data: Seq<u8>, pos: nat, st: DecodeState)
    requires
        pos < 8 * data.len(),
    ensures
        pos < spec_tick_fields(data, pos, st).1,
        spec_tick_fields(data, pos, st).1 <= 8 * data.len(),
{
    lemma_tick_head_pos(data, pos, st);
    lemma_tick_tail_pos(data, spec_tick_head(data, pos, st).1, st.powerups);
}

/// All ticks from the cursor to the end of the buffer, appended to the
/// stream decoded so far, with the state the final tick leaves behind.
pub open spec fn spec_decode_events(
    data: Seq<u8>,
    pos: nat,
    st: DecodeState,
    acc: Seq<PlayerEvent>,
) -> (Seq<PlayerEvent>, DecodeState)
    decreases 8 * data.len() - pos,
    via spec_decode_events_decreases
{
    if pos < 8 * data.len() {
        let (evs, st2, p2) = spec_decode_tick(data, pos, st, acc);
        spec_decode_events(data, p2, st2, evs)
    } else {
        (acc, st)
    }
}

#[via_fn]
proof fn spec_decode_events_decreases(data: Seq<u8>, pos: nat, st: DecodeState, acc: Seq<PlayerEvent>) {
    if pos < 8 * data.len() {
        lemma_tick_fields_pos(data, pos, st);
    }
}

/// The full decoded stream of one player: every tick's events from a fresh
/// cursor, closed by a single `End` event at the supplied match duration
/// carrying whatever state the final tick left.
pub open spec fn spec_player_events(data: Seq<u8>, team: Team, duration: usize) -> Seq<
    PlayerEvent,
> {
    let st0 = DecodeState {
        team,
        flag: Flag::NoFlag,
        powerups: 0,
        preventing: false,
        buttoning: false,
        blocking: false,
        time: 0,
    };
    let (evs, st) = spec_decode_events(data, 0, st0, Seq::empty());
    evs.push(mk_event(Event::End, duration, st.flag, st.powerups, st.team))
}

/// The event kinds that release the carried flag within one player's
/// stream.
pub open spec fn is_clearing(e: Event) -> bool {
    e == Event::Capture || e == Event::Drop || e == Event::Switch || e == Event::Quit
}

/// Some flag-releasing event stands strictly between positions `i` and
/// `j`.
pub open spec fn cleared_between(s: Seq<PlayerEvent>, i: int, j: int) -> bool {
    exists|k: int| i < k < j && #[trigger] is_clearing(s[k].event_type)
}

/// Some flag-releasing event follows position `g`.
pub open spec fn cleared_after(s: Seq<PlayerEvent>, g: int) -> bool {
    cleared_between(s, g, s.len() as int)
}

/// No two grabs stand in the stream without a capture, drop, switch or
/// quit between them.
pub open spec fn grabs_separated(s: Seq<PlayerEvent>) -> bool {
    forall|i: int, j: int|
        #![trigger s[i], s[j]]
        0 <= i < j < s.len() && s[i].event_type == Event::Grab && s[j].event_type == Event::Grab
            ==> cleared_between(s, i, j)
}

/// The stream emitted so far, seen against the flag the decoder carries:
/// grabs are separated, and while no flag is carried every grab has
/// already been released.
pub open spec fn stream_inv(s: Seq<PlayerEvent>, flag: Flag) -> bool {
    grabs_separated(s) && (flag == Flag::NoFlag ==> forall|g: int|
        0 <= g < s.len() && (#[trigger] s[g]).event_type == Event::Grab ==> cleared_after(s, g))
}

/// The stream grew only by events other than `End`.
pub open spec fn extends_without_end(acc: Seq<PlayerEvent>, s: Seq<PlayerEvent>) -> bool {
    s.len() >= acc.len() && (forall|i: int| 0 <= i < acc.len() ==> s[i] == #[trigger] acc[i]) && (
    forall|i: int| acc.len() <= i < s.len() ==> (#[trigger] s[i]).event_type != Event::End)
}

/// Growing without `End` events composes.
proof fn lemma_extends_trans(a: Seq<PlayerEvent>, b: Seq<PlayerEvent>, c: Seq<PlayerEvent>)
    requires
        extends_without_end(a, b),
        extends_without_end(b, c),
    ensures
        extends_without_end(a, c),
{
    assert forall|i: int| 0 <= i < a.len() implies c[i] == #[trigger] a[i] by {
        assert(b[i] == a[i]);
        assert(c[i] == b[i]);
    }
    assert forall|i: int| a.len() <= i < c.len() implies (#[trigger] c[i]).event_type != Event::End
        by {
        if i < b.len() {
            assert(c[i] == b[i]);
        }
    }
}

/// Appending one event keeps the stream invariant: a grab is only emitted
/// while no flag is carried and leaves one carried; a releasing event may
/// leave any flag state; any other event leaves the flag as it was.
proof fn lemma_append_event(s: Seq<PlayerEvent>, flag: Flag, e: PlayerEvent, flag2: Flag)
    requires
        stream_inv(s, flag),
        e.event_type == Event::Grab ==> flag == Flag::NoFlag && flag2 != Flag::NoFlag,
        (!is_clearing(e.event_type) && e.event_type != Event::Grab) ==> flag2 == flag,
    ensures
        stream_inv(s.push(e), flag2),
{
    let s2 = s.push(e);
    assert forall|i: int, j: int|
        #![trigger s2[i], s2[j]]
        0 <= i < j < s2.len() && s2[i].event_type == Event::Grab && s2[j].event_type
            == Event::Grab implies cleared_between(s2, i, j) by {
        if j < s.len() {
            assert(s[i].event_type == Event::Grab && s[j].event_type == Event::Grab);
            let k = choose|k: int| i < k < j && #[trigger] is_clearing(s[k].event_type);
            assert(s2[k] == s[k]);
            assert(is_clearing(s2[k].event_type));
        } else {
            assert(s2[j] == e);
            assert(s[i].event_type == Event::Grab);
            assert(cleared_after(s, i));
            let k = choose|k: int| i < k < s.len() && #[trigger] is_clearing(s[k].event_type);
            assert(s2[k] == s[k]);
            assert(is_clearing(s2[k].event_type));
        }
    }
    if flag2 == Flag::NoFlag {
        assert forall|g: int|
            0 <= g < s2.len() && (#[trigger] s2[g]).event_type == Event::Grab implies cleared_after(
            s2,
            g,
        ) by {
            if is_clearing(e.event_type) {
                assert(s2[s.len() as int] == e);
                assert(g < s.len() as int || s2[g] == e);
                assert(g < s2.len() as int - 1 || s2[g].event_type != Event::Grab);
                assert(is_clearing(s2[s.len() as int].event_type));
            } else {
                assert(g < s.len());
                assert(s[g].event_type == Event::Grab);
                assert(cleared_after(s, g));
                let k = choose|k: int| g < k < s.len() && #[trigger] is_clearing(s[k].event_type);
                assert(s2[k] == s[k]);
                assert(is_clearing(s2[k].event_type));
            }
        }
    }
}

/// Repeated plain events keep the stream invariant and add no `End`.
proof fn lemma_push_repeat_stream(acc: Seq<PlayerEvent>, n: nat, ev: PlayerEvent, flag: Flag)
    requires
        stream_inv(acc, flag),
        ev.event_type != Event::Grab,
        !is_clearing(ev.event_type),
        ev.event_type != Event::End,
    ensures
        stream_inv(spec_push_repeat(acc, n, ev), flag),
        extends_without_end(acc, spec_push_repeat(acc, n, ev)),
    decreases n,
{
    if n > 0 {
        lemma_append_event(acc, flag, ev, flag);
        lemma_push_repeat_stream(acc.push(ev), (n - 1) as nat, ev, flag);
        lemma_extends_trans(acc, acc.push(ev), spec_push_repeat(acc, n, ev));
    }
}

/// A capture tally keeps the stream invariant against the flag it leaves.
proof fn lemma_captures_stream(
    acc: Seq<PlayerEvent>,
    n: nat,
    flag: Flag,
    kept: bool,
    time: usize,
    powerups: usize,
    team: Team,
)
    requires
        stream_inv(acc, flag),
    ensures
        ({
            let (r, fl) = spec_captures(acc, n, flag, kept, time, powerups, team);
            stream_inv(r, fl) && extends_without_end(acc, r)
        }),
    decreases n,
{
    if n == 0 {
    } else if kept || flag == Flag::NoFlag {
        let ev = mk_event(Event::FlaglessCapture, time, flag, powerups, team);
        lemma_append_event(acc, flag, ev, flag);
        lemma_captures_stream(acc.push(ev), (n - 1) as nat, flag, kept, time, powerups, team);
        lemma_extends_trans(acc, acc.push(ev), spec_captures(acc, n, flag, kept, time, powerups, team).0);
    } else {
        let ev = mk_event(Event::Capture, time, flag, powerups, team);
        lemma_append_event(acc, flag, ev, Flag::NoFlag);
        lemma_captures_stream(
            acc.push(ev),
            (n - 1) as nat,
            Flag::NoFlag,
            true,
            time,
            powerups,
            team,
        );
        lemma_extends_trans(acc, acc.push(ev), spec_captures(acc, n, flag, kept, time, powerups, team).0);
    }
}

/// The tick's leading emissions keep the stream invariant against the
/// flag the captures leave.
proof fn lemma_front_stream(
    acc: Seq<PlayerEvent>,
    st: DecodeState,
    h: TickHead,
    time: usize,
    team: Team,
)
    requires
        stream_inv(acc, st.flag),
        h.grab_occurred ==> st.flag == Flag::NoFlag && h.new_flag != Flag::NoFlag,
    ensures
        ({
            let (r, fl2) = spec_emit_front(acc, st, h, time, team);
            stream_inv(r, fl2) && extends_without_end(acc, r)
        }),
{
    let a1 = if st.team == Team::Neutral && h.new_team != Team::Neutral {
        acc.push(mk_event(Event::Join, time, st.flag, st.powerups, team))
    } else {
        acc
    };
    if st.team == Team::Neutral && h.new_team != Team::Neutral {
        lemma_append_event(acc, st.flag, mk_event(Event::Join, time, st.flag, st.powerups, team), st.flag);
    }
    let a2 = spec_push_repeat(
        a1,
        h.num_returns as nat,
        mk_event(Event::Return, time, st.flag, st.powerups, team),
    );
    lemma_push_repeat_stream(
        a1,
        h.num_returns as nat,
        mk_event(Event::Return, time, st.flag, st.powerups, team),
        st.flag,
    );
    let a3 = spec_push_repeat(
        a2,
        h.num_tags as nat,
        mk_event(Event::Tag, time, st.flag, st.powerups, team),
    );
    lemma_push_repeat_stream(
        a2,
        h.num_tags as nat,
        mk_event(Event::Tag, time, st.flag, st.powerups, team),
        st.flag,
    );
    let flag1 = if h.grab_occurred {
        h.new_flag
    } else {
        st.flag
    };
    let a4 = if h.grab_occurred {
        a3.push(mk_event(Event::Grab, time, flag1, st.powerups, team))
    } else {
        a3
    };
    if h.grab_occurred {
        lemma_append_event(a3, st.flag, mk_event(Event::Grab, time, flag1, st.powerups, team), flag1);
    }
    lemma_captures_stream(a4, h.num_captures as nat, flag1, h.flag_kept, time, st.powerups, team);
    lemma_extends_trans(acc, a1, a2);
    lemma_extends_trans(acc, a2, a3);
    lemma_extends_trans(acc, a3, a4);
    lemma_extends_trans(acc, a4, spec_emit_front(acc, st, h, time, team).0);
}

/// The tick's powerup emissions keep the stream invariant.
proof fn lemma_pups_stream(
    acc: Seq<PlayerEvent>,
    t: TickTail,
    powerups: usize,
    time: usize,
    flag2: Flag,
    team: Team,
    fl: Flag,
)
    requires
        stream_inv(acc, fl),
    ensures
        ({
            let (r, pu) = spec_emit_pups(acc, t, powerups, time, flag2, team);
            stream_inv(r, fl) && extends_without_end(acc, r)
        }),
{
    let (a1, pu1) = spec_pup_step(acc, t.lost_bit1, t.gained_bit1, 1, powerups, time, flag2, team);
    if t.lost_bit1 {
        lemma_append_event(acc, fl, mk_event(Event::Powerdown, time, flag2, powerups ^ 1, team), fl);
    } else if t.gained_bit1 {
        lemma_append_event(acc, fl, mk_event(Event::Powerup, time, flag2, powerups | 1, team), fl);
    }
    let (a2, pu2) = spec_pup_step(a1, t.lost_bit2, t.gained_bit2, 2, pu1, time, flag2, team);
    if t.lost_bit2 {
        lemma_append_event(a1, fl, mk_event(Event::Powerdown, time, flag2, pu1 ^ 2, team), fl);
    } else if t.gained_bit2 {
        lemma_append_event(a1, fl, mk_event(Event::Powerup, time, flag2, pu1 | 2, team), fl);
    }
    let (a3, pu4) = spec_pup_step(a2, t.lost_bit4, t.gained_bit4, 4, pu2, time, flag2, team);
    if t.lost_bit4 {
        lemma_append_event(a2, fl, mk_event(Event::Powerdown, time, flag2, pu2 ^ 4, team), fl);
    } else if t.gained_bit4 {
        lemma_append_event(a2, fl, mk_event(Event::Powerup, time, flag2, pu2 | 4, team), fl);
    }
    let (a4, pu8) = spec_pup_step(a3, t.lost_bit8, t.gained_bit8, 8, pu4, time, flag2, team);
    if t.lost_bit8 {
        lemma_append_event(a3, fl, mk_event(Event::Powerdown, time, flag2, pu4 ^ 8, team), fl);
    } else if t.gained_bit8 {
        lemma_append_event(a3, fl, mk_event(Event::Powerup, time, flag2, pu4 | 8, team), fl);
    }
    lemma_push_repeat_stream(
        a4,
        t.num_dup as nat,
        mk_event(Event::DuplicatePowerup, time, flag2, pu8, team),
        fl,
    );
    lemma_extends_trans(acc, a1, a2);
    lemma_extends_trans(acc, a2, a3);
    lemma_extends_trans(acc, a3, a4);
    lemma_extends_trans(acc, a4, spec_emit_pups(acc, t, powerups, time, flag2, team).0);
}

/// The tick's closing emissions keep the stream invariant against the
/// flag carried into the next tick.
proof fn lemma_close_stream(
    acc: Seq<PlayerEvent>,
    st: DecodeState,
    pop_occurred: bool,
    new_team: Team,
    t: TickTail,
    flag2: Flag,
    pu: usize,
    time: usize,
    team: Team,
)
    requires
        stream_inv(acc, flag2),
    ensures
        ({
            let (r, st2) = spec_emit_close(acc, st, pop_occurred, new_team, t, flag2, pu, time, team);
            stream_inv(r, st2.flag) && extends_without_end(acc, r)
        }),
{
    let (a1, preventing) = spec_toggle_step(
        acc,
        t.toggle_preventing,
        st.preventing,
        Event::StartPrevent,
        Event::StopPrevent,
        time,
        flag2,
        pu,
        team,
    );
    if t.toggle_preventing {
        if st.preventing {
            lemma_append_event(acc, flag2, mk_event(Event::StopPrevent, time, flag2, pu, team), flag2);
        } else {
            lemma_append_event(acc, flag2, mk_event(Event::StartPrevent, time, flag2, pu, team), flag2);
        }
    }
    let (a2, buttoning) = spec_toggle_step(
        a1,
        t.toggle_buttoning,
        st.buttoning,
        Event::StartButton,
        Event::StopButton,
        time,
        flag2,
        pu,
        team,
    );
    if t.toggle_buttoning {
        if st.buttoning {
            lemma_append_event(a1, flag2, mk_event(Event::StopButton, time, flag2, pu, team), flag2);
        } else {
            lemma_append_event(a1, flag2, mk_event(Event::StartButton, time, flag2, pu, team), flag2);
        }
    }
    let (a3, blocking) = spec_toggle_step(
        a2,
        t.toggle_blocking,
        st.blocking,
        Event::StartBlock,
        Event::StopBlock,
        time,
        flag2,
        pu,
        team,
    );
    if t.toggle_blocking {
        if st.blocking {
            lemma_append_event(a2, flag2, mk_event(Event::StopBlock, time, flag2, pu, team), flag2);
        } else {
            lemma_append_event(a2, flag2, mk_event(Event::StartBlock, time, flag2, pu, team), flag2);
        }
    }
    let (a4, flag3) = if pop_occurred {
        if flag2 != Flag::NoFlag {
            (a3.push(mk_event(Event::Drop, time, flag2, pu, team)), Flag::NoFlag)
        } else {
            (a3.push(mk_event(Event::Pop, time, flag2, pu, team)), flag2)
        }
    } else {
        (a3, flag2)
    };
    if pop_occurred {
        if flag2 != Flag::NoFlag {
            lemma_append_event(a3, flag2, mk_event(Event::Drop, time, flag2, pu, team), Flag::NoFlag);
        } else {
            lemma_append_event(a3, flag2, mk_event(Event::Pop, time, flag2, pu, team), flag2);
        }
    }
    if new_team == team {
    } else if new_team == Team::Neutral {
        lemma_append_event(a4, flag3, mk_event(Event::Quit, time, flag3, pu, team), Flag::NoFlag);
    } else {
        lemma_append_event(a4, flag3, mk_event(Event::Switch, time, flag3, pu, team), Flag::NoFlag);
    }
    lemma_extends_trans(acc, a1, a2);
    lemma_extends_trans(acc, a2, a3);
    lemma_extends_trans(acc, a3, a4);
    lemma_extends_trans(
        acc,
        a4,
        spec_emit_close(acc, st, pop_occurred, new_team, t, flag2, pu, time, team).0,
    );
}

/// A tick's leading fields only report a grab while no flag is carried,
/// and a grab never selects the empty flag.
proof fn lemma_tick_head_grab(data: Seq<u8>, pos: nat, st: DecodeState)
    ensures
        ({
            let (h, p) = spec_tick_head(data, pos, st);
            (h.grab_occurred ==> st.flag == Flag::NoFlag) && (h.grab_occurred ==> h.new_flag
                != Flag::NoFlag)
        }),
{
}

/// One tick's emissions keep the stream invariant against the state the
/// tick leaves.
proof fn lemma_tick_stream(acc: Seq<PlayerEvent>, st: DecodeState, f: TickFields)
    requires
        stream_inv(acc, st.flag),
        f.head.grab_occurred ==> st.flag == Flag::NoFlag && f.head.new_flag != Flag::NoFlag,
    ensures
        ({
            let (r, st2) = spec_tick_emit(acc, st, f);
            stream_inv(r, st2.flag) && extends_without_end(acc, r)
        }),
{
    let time = spec_tick_time(st, f);
    let team = spec_tick_team(st, f);
    let (a1, flag2) = spec_emit_front(acc, st, f.head, time, team);
    lemma_front_stream(acc, st, f.head, time, team);
    let (a2, pu) = spec_emit_pups(a1, f.tail, st.powerups, time, flag2, team);
    lemma_pups_stream(a1, f.tail, st.powerups, time, flag2, team, flag2);
    lemma_close_stream(a2, st, f.head.pop_occurred, f.head.new_team, f.tail, flag2, pu, time, team);
    lemma_extends_trans(acc, a1, a2);
    lemma_extends_trans(acc, a2, spec_tick_emit(acc, st, f).0);
}

/// The whole decode keeps the stream invariant against the final state
/// and adds no `End` event.
proof fn lemma_decode_stream(data: Seq<u8>, pos: nat, st: DecodeState, acc: Seq<PlayerEvent>)
    requires
        stream_inv(acc, st.flag),
    ensures
        ({
            let (r, st2) = spec_decode_events(data, pos, st, acc);
            stream_inv(r, st2.flag) && extends_without_end(acc, r)
        }),
    decreases 8 * data.len() - pos,
{
    if pos < 8 * data.len() {
        lemma_tick_fields_pos(data, pos, st);
        let (f, p2) = spec_tick_fields(data, pos, st);
        lemma_tick_head_grab(data, pos, st);
        lemma_tick_stream(acc, st, f);
        let (evs, st2) = spec_tick_emit(acc, st, f);
        lemma_decode_stream(data, p2, st2, evs);
        lemma_extends_trans(acc, evs, spec_decode_events(data, pos, st, acc).0);
    }
}

/// Two laws of every decoded stream. First: it ends with exactly one
/// `End` event, at the supplied match duration, and holds no other `End`.
/// Second: within the stream no two `Grab` events occur without a
/// `Capture`, `Drop`, `Switch` or `Quit` between them — the events that
/// release the carried flag. (A `FlaglessCapture` or a `Pop` leaves the
/// flag carried, so they cannot stand alone between two grabs.)
pub proof fn lemma_player_events_laws(data: Seq<u8>, team: Team, duration: usize)
    ensures
        ({
            let evs = spec_player_events(data, team, duration);
            evs.len() >= 1 && evs.last().event_type == Event::End && evs.last().time == duration
                && (forall|i: int|
                0 <= i < evs.len() - 1 ==> (#[trigger] evs[i]).event_type != Event::End)
                && grabs_separated(evs)
        }),
{
    let st0 = DecodeState {
        team,
        flag: Flag::NoFlag,
        powerups: 0,
        preventing: false,
        buttoning: false,
        blocking: false,
        time: 0,
    };
    assert(stream_inv(Seq::empty(), Flag::NoFlag));
    lemma_decode_stream(data, 0, st0, Seq::empty());
    let (evs0, st) = spec_decode_events(data, 0, st0, Seq::empty());
    let end_ev = mk_event(Event::End, duration, st.flag, st.powerups, st.team);
    lemma_append_event(evs0, st.flag, end_ev, st.flag);
}

/// The carried flag variant selected by a 2-bit code offset by one.
fn flag_from_code(v: usize) -> (r: Flag)
    ensures
        r == spec_flag_from_code(v),
{
    match v {
        1 => Flag::Opponent,
        2 => Flag::OpponentPotato,
        3 => Flag::Neutral,
        _ => Flag::NeutralPotato,
    }
}

/// Appends `n` copies of one event.
fn push_repeat(events: &mut Vec<PlayerEvent>, n: usize, ev: PlayerEvent)
    ensures
        final(events)@ == spec_push_repeat(old(events)@, n as nat, ev),
{
    let mut k: usize = 0;
    while k < n
        invariant
            k <= n,
            spec_push_repeat(events@, (n - k) as nat, ev) == spec_push_repeat(
                old(events)@,
                n as nat,
                ev,
            ),
        decreases n - k,
    {
        events.push(ev);
        k = k + 1;
    }
}

/// Appends the events of a capture tally, handing back the flag state the
/// tally leaves behind.
fn push_captures(
    events: &mut Vec<PlayerEvent>,
    n: usize,
    flag: Flag,
    kept: bool,
    time: usize,
    powerups: usize,
    team: Team,
) -> (fl: Flag)
    ensures
        ({
            let (s, f) = spec_captures(old(events)@, n as nat, flag, kept, time, powerups, team);
            final(events)@ == s && fl == f
        }),
{
    let mut remaining = n;
    let mut fl = flag;
    let mut kp = kept;
    while remaining > 0
        invariant
            spec_captures(events@, remaining as nat, fl, kp, time, powerups, team)
                == spec_captures(old(events)@, n as nat, flag, kept, time, powerups, team),
        decreases remaining,
    {
        if kp || matches!(fl, Flag::NoFlag) {
            events.push(PlayerEvent {
                event_type: Event::FlaglessCapture,
                time,
                flag: fl,
                powerups,
                team,
            });
        } else {
            events.push(PlayerEvent { event_type: Event::Capture, time, flag: fl, powerups, team });
            fl = Flag::NoFlag;
            kp = true;
        }
        remaining = remaining - 1;
    }
    fl
}

/// The tick's leading emissions, as `spec_emit_front` describes them.
fn emit_front(
    events: &mut Vec<PlayerEvent>,
    st: DecodeState,
    h: TickHead,
    time: usize,
    team: Team,
) -> (fl: Flag)
    ensures
        ({
            let (s, f) = spec_emit_front(old(events)@, st, h, time, team);
            final(events)@ == s && fl == f
        }),
{
    if matches!(st.team, Team::Neutral) && !matches!(h.new_team, Team::Neutral) {
        events.push(PlayerEvent {
            event_type: Event::Join,
            time,
            flag: st.flag,
            powerups: st.powerups,
            team,
        });
    }
    push_repeat(
        &mut *events,
        h.num_returns,
        PlayerEvent { event_type: Event::Return, time, flag: st.flag, powerups: st.powerups, team },
    );
    push_repeat(
        &mut *events,
        h.num_tags,
        PlayerEvent { event_type: Event::Tag, time, flag: st.flag, powerups: st.powerups, team },
    );
    let flag1 = if h.grab_occurred {
        h.new_flag
    } else {
        st.flag
    };
    if h.grab_occurred {
        events.push(PlayerEvent {
            event_type: Event::Grab,
            time,
            flag: flag1,
            powerups: st.powerups,
            team,
        });
    }
    push_captures(&mut *events, h.num_captures, flag1, h.flag_kept, time, st.powerups, team)
}

/// The tick's powerup emissions, as `spec_emit_pups` describes them.
fn emit_pups(
    events: &mut Vec<PlayerEvent>,
    t: TickTail,
    powerups: usize,
    time: usize,
    flag2: Flag,
    team: Team,
) -> (pu: usize)
    ensures
        ({
            let (s, p) = spec_emit_pups(old(events)@, t, powerups, time, flag2, team);
            final(events)@ == s && pu == p
        }),
{
    let mut pu = powerups;
    if t.lost_bit1 {
        pu = pu ^ 1;
        events.push(PlayerEvent { event_type: Event::Powerdown, time, flag: flag2, powerups: pu, team });
    } else if t.gained_bit1 {
        pu = pu | 1;
        events.push(PlayerEvent { event_type: Event::Powerup, time, flag: flag2, powerups: pu, team });
    }
    if t.lost_bit2 {
        pu = pu ^ 2;
        events.push(PlayerEvent { event_type: Event::Powerdown, time, flag: flag2, powerups: pu, team });
    } else if t.gained_bit2 {
        pu = pu | 2;
        events.push(PlayerEvent { event_type: Event::Powerup, time, flag: flag2, powerups: pu, team });
    }
    if t.lost_bit4 {
        pu = pu ^ 4;
        events.push(PlayerEvent { event_type: Event::Powerdown, time, flag: flag2, powerups: pu, team });
    } else if t.gained_bit4 {
        pu = pu | 4;
        events.push(PlayerEvent { event_type: Event::Powerup, time, flag: flag2, powerups: pu, team });
    }
    if t.lost_bit8 {
        pu = pu ^ 8;
        events.push(PlayerEvent { event_type: Event::Powerdown, time, flag: flag2, powerups: pu, team });
    } else if t.gained_bit8 {
        pu = pu | 8;
        events.push(PlayerEvent { event_type: Event::Powerup, time, flag: flag2, powerups: pu, team });
    }
    push_repeat(
        &mut *events,
        t.num_dup,
        PlayerEvent { event_type: Event::DuplicatePowerup, time, flag: flag2, powerups: pu, team },
    );
    pu
}

/// The tick's closing emissions, as `spec_emit_close` describes them.
fn emit_close(
    events: &mut Vec<PlayerEvent>,
    st: DecodeState,
    pop_occurred: bool,
    new_team: Team,
    t: TickTail,
    flag2: Flag,
    pu_in: usize,
    time: usize,
    team: Team,
) -> (st2: DecodeState)
    ensures
        ({
            let (s, out) = spec_emit_close(
                old(events)@,
                st,
                pop_occurred,
                new_team,
                t,
                flag2,
                pu_in,
                time,
                team,
            );
            final(events)@ == s && st2 == out
        }),
{
    let mut pu = pu_in;
    let mut preventing = st.preventing;
    if t.toggle_preventing {
        if preventing {
            events.push(PlayerEvent { event_type: Event::StopPrevent, time, flag: flag2, powerups: pu, team });
        } else {
            events.push(PlayerEvent { event_type: Event::StartPrevent, time, flag: flag2, powerups: pu, team });
        }
        preventing = !preventing;
    }
    let mut buttoning = st.buttoning;
    if t.toggle_buttoning {
        if buttoning {
            events.push(PlayerEvent { event_type: Event::StopButton, time, flag: flag2, powerups: pu, team });
        } else {
            events.push(PlayerEvent { event_type: Event::StartButton, time, flag: flag2, powerups: pu, team });
        }
        buttoning = !buttoning;
    }
    let mut blocking = st.blocking;
    if t.toggle_blocking {
        if blocking {
            events.push(PlayerEvent { event_type: Event::StopBlock, time, flag: flag2, powerups: pu, team });
        } else {
            events.push(PlayerEvent { event_type: Event::StartBlock, time, flag: flag2, powerups: pu, team });
        }
        blocking = !blocking;
    }
    let mut flag3 = flag2;
    if pop_occurred {
        if !matches!(flag2, Flag::NoFlag) {
            events.push(PlayerEvent { event_type: Event::Drop, time, flag: flag2, powerups: pu, team });
            flag3 = Flag::NoFlag;
        } else {
            events.push(PlayerEvent { event_type: Event::Pop, time, flag: flag2, powerups: pu, team });
        }
    }
    let mut flag4 = flag3;
    if new_team == team {
    } else if matches!(new_team, Team::Neutral) {
        events.push(PlayerEvent { event_type: Event::Quit, time, flag: flag3, powerups: pu, team });
        flag4 = Flag::NoFlag;
        pu = 0;
    } else {
        events.push(PlayerEvent { event_type: Event::Switch, time, flag: flag3, powerups: pu, team });
        flag4 = Flag::NoFlag;
    }
    DecodeState { team, flag: flag4, powerups: pu, preventing, buttoning, blocking, time }
}

impl EventsReader {
    /// One powerup slot's bit field, as `spec_powerup_bit` describes it.
    fn read_powerup_bit(&mut self, held: bool, remaining: usize) -> (r: (bool, bool, usize))
        requires
            old(self).wf(),
        ensures
            final(self).wf(),
            final(self).buf() == old(self).buf(),
            (r.0, r.1, r.2 as nat, final(self).cursor()) == spec_powerup_bit(
                old(self).buf(),
                old(self).cursor(),
                held,
                remaining as nat,
            ),
    {
        if held {
            let b = self.read_bool();
            (false, b, remaining)
        } else if remaining != 0 {
            let b = self.read_bool();
            (b, false, if b {
                remaining - 1
            } else {
                remaining
            })
        } else {
            (false, false, remaining)
        }
    }

    /// One tick's leading bit fields, as `spec_tick_head` describes them.
    #[verifier::rlimit(100)]
    fn read_tick_head(&mut self, st: DecodeState) -> (r: TickHead)
        requires
            old(self).wf(),
        ensures
            final(self).wf(),
            final(self).buf() == old(self).buf(),
            (r, final(self).cursor()) == spec_tick_head(old(self).buf(), old(self).cursor(), st),
    {
        let team_change = self.read_bool();
        let new_team = if team_change {
            let dir = self.read_bool();
            match (st.team, dir) {
                (Team::Neutral, false) => Team::Red,
                (Team::Neutral, true) => Team::Blue,
                (Team::Red, false) => Team::Blue,
                (Team::Blue, false) => Team::Red,
                _ => Team::Neutral,
            }
        } else {
            st.team
        };
        let pop_occurred = self.read_bool();
        let num_returns = self.read_tally();
        let num_tags = self.read_tally();
        let grab_occurred = if matches!(st.flag, Flag::NoFlag) {
            self.read_bool()
        } else {
            false
        };
        let num_captures = self.read_tally();
        let flag_kept = if !pop_occurred && !matches!(new_team, Team::Neutral) {
            if num_captures == 0 || (matches!(st.flag, Flag::NoFlag) && !grab_occurred) {
                true
            } else {
                self.read_bool()
            }
        } else {
            false
        };
        let new_flag = if grab_occurred {
            if flag_kept {
                let ghost pre = *self;
                let v = self.read_fixed(2);
                proof {
                    lemma_read_fixed_bound(pre.buf(), pre.cursor(), 2);
                    vstd::arithmetic::power2::lemma2_to64();
                }
                flag_from_code(1 + v)
            } else {
                Flag::Temporary
            }
        } else {
            st.flag
        };
        TickHead {
            new_team,
            pop_occurred,
            num_returns,
            num_tags,
            grab_occurred,
            num_captures,
            flag_kept,
            new_flag,
        }
    }

    /// One tick's trailing bit fields, as `spec_tick_tail` describes them.
    #[verifier::rlimit(100)]
    fn read_tick_tail(&mut self, powerups: usize) -> (r: TickTail)
        requires
            old(self).wf(),
        ensures
            final(self).wf(),
            final(self).buf() == old(self).buf(),
            (r, final(self).cursor()) == spec_tick_tail(
                old(self).buf(),
                old(self).cursor(),
                powerups,
            ),
    {
        let num_new = self.read_tally();
        let (gained_bit1, lost_bit1, rem1) = self.read_powerup_bit(powerups & 1 != 0, num_new);
        let (gained_bit2, lost_bit2, rem2) = self.read_powerup_bit(powerups & 2 != 0, rem1);
        let (gained_bit4, lost_bit4, rem4) = self.read_powerup_bit(powerups & 4 != 0, rem2);
        let (gained_bit8, lost_bit8, rem8) = self.read_powerup_bit(powerups & 8 != 0, rem4);
        let toggle_preventing = self.read_bool();
        let toggle_buttoning = self.read_bool();
        let toggle_blocking = self.read_bool();
        let ghost pre_footer = *self;
        let footer = self.read_footer();
        proof {
            lemma_read_footer_bound(pre_footer.buf(), pre_footer.cursor());
        }
        TickTail {
            lost_bit1,
            gained_bit1,
            lost_bit2,
            gained_bit2,
            lost_bit4,
            gained_bit4,
            lost_bit8,
            gained_bit8,
            num_dup: rem8,
            toggle_preventing,
            toggle_buttoning,
            toggle_blocking,
            delta: 1 + footer,
        }
    }

    /// One whole tick: its bit fields, then its emitted events appended to
    /// the stream decoded so far, and the state handed to the next tick.
    fn decode_tick(&mut self, events: &mut Vec<PlayerEvent>, st: DecodeState) -> (st2: DecodeState)
        requires
            old(self).wf(),
        ensures
            final(self).wf(),
            final(self).buf() == old(self).buf(),
            ({
                let (s, out, p) = spec_decode_tick(
                    old(self).buf(),
                    old(self).cursor(),
                    st,
                    old(events)@,
                );
                final(events)@ == s && st2 == out && final(self).cursor() == p
            }),
    {
        let head = self.read_tick_head(st);
        let tail = self.read_tick_tail(st.powerups);
        let f = TickFields { head, tail };
        proof {
            assert((f, self.cursor() as nat) == spec_tick_fields(
                old(self).buf(),
                old(self).cursor(),
                st,
            ));
        }
        let time = if st.time <= usize::MAX - f.tail.delta {
            st.time + f.tail.delta
        } else {
            usize::MAX
        };
        let team = if matches!(st.team, Team::Neutral) && !matches!(f.head.new_team, Team::Neutral) {
            f.head.new_team
        } else {
            st.team
        };
        proof {
            assert(time == spec_tick_time(st, f));
            assert(team == spec_tick_team(st, f));
        }
        let flag2 = emit_front(&mut *events, st, f.head, time, team);
        let pu = emit_pups(&mut *events, f.tail, st.powerups, time, flag2, team);
        emit_close(
            &mut *events,
            st,
            f.head.pop_occurred,
            f.head.new_team,
            f.tail,
            flag2,
            pu,
            time,
            team,
        )
    }

    /// Replays one player's whole buffer from the start: every tick's
    /// events in order, closed by a single `End` event at the supplied
    /// match duration. The result is a pure function of the buffer, the
    /// starting team and the duration.
    pub fn player_events(&mut self, team: Team, duration: usize) -> (events: Vec<PlayerEvent>)
        requires
            old(self).wf(),
        ensures
            final(self).wf(),
            final(self).buf() == old(self).buf(),
            events@ == spec_player_events(old(self).buf(), team, duration),
    {
        self.reset();
        let mut st = DecodeState {
            team,
            flag: Flag::NoFlag,
            powerups: 0,
            preventing: false,
            buttoning: false,
            blocking: false,
            time: 0,
        };
        let ghost st0 = st;
        let mut events: Vec<PlayerEvent> = Vec::new();
        while self.events_remaining()
            invariant
                self.wf(),
                self.buf() == old(self).buf(),
                spec_decode_events(self.buf(), self.cursor(), st, events@) == spec_decode_events(
                    self.buf(),
                    0,
                    st0,
                    Seq::empty(),
                ),
            decreases 8 * self.buf().len() - self.cursor(),
        {
            proof {
                lemma_tick_fields_pos(self.buf(), self.cursor(), st);
            }
            st = self.decode_tick(&mut events, st);
        }
        events.push(PlayerEvent {
            event_type: Event::End,
            time: duration,
            flag: st.flag,
            powerups: st.powerups,
            team: st.team,
        });
        events
    }
}

} // verus!
