use vstd::prelude::*;

verus! {

use crate::analysis_types::RelevantEvent;

/// Events in tick order, earliest first.
pub open spec fn spec_sorted_by_time(s: Seq<RelevantEvent>) -> bool {
    forall|i: int, j: int|
        #![trigger s[i], s[j]]
        0 <= i < j < s.len() ==> s[i].time <= s[j].time
}

/// Stable insertion into a time-sorted sequence: the new event lands after
/// every event with the same or an earlier tick.
pub open spec fn spec_insert_stable(sorted: Seq<RelevantEvent>, e: RelevantEvent) -> Seq<
    RelevantEvent,
>
    decreases sorted.len(),
{
    if sorted.len() == 0 {
        seq![e]
    } else if sorted.last().time > e.time {
        spec_insert_stable(sorted.drop_last(), e).push(sorted.last())
    } else {
        sorted.push(e)
    }
}

/// The stable sort of a sequence by tick: each event inserted in turn, so
/// ties keep their source order.
pub open spec fn spec_stable_sort_by_time(s: Seq<RelevantEvent>) -> Seq<RelevantEvent>
    decreases s.len(),
{
    if s.len() == 0 {
        Seq::empty()
    } else {
        spec_insert_stable(spec_stable_sort_by_time(s.drop_last()), s.last())
    }
}

/// Stable insertion is the positional insertion at the boundary between
/// the ticks at or before the new event's and those after it.
pub proof fn lemma_insert_stable_at(sorted: Seq<RelevantEvent>, e: RelevantEvent, j: int)
    requires
        0 <= j <= sorted.len(),
        forall|k: int| 0 <= k < j ==> #[trigger] sorted[k].time <= e.time,
        forall|k: int| j <= k < sorted.len() ==> #[trigger] sorted[k].time > e.time,
    ensures
        spec_insert_stable(sorted, e) == sorted.insert(j, e),
    decreases sorted.len(),
{
    if sorted.len() == 0 {
        assert(spec_insert_stable(sorted, e) =~= sorted.insert(0, e));
    } else if sorted.last().time > e.time {
        lemma_insert_stable_at(sorted.drop_last(), e, j);
        assert(sorted.drop_last().insert(j, e).push(sorted.last()) =~= sorted.insert(j, e));
    } else {
        assert(j == sorted.len());
        assert(sorted.push(e) =~= sorted.insert(j, e));
    }
}

/// Inserting into a sorted sequence keeps it sorted.
pub proof fn lemma_insert_stable_sorted(sorted: Seq<RelevantEvent>, e: RelevantEvent, j: int)
    requires
        spec_sorted_by_time(sorted),
        0 <= j <= sorted.len(),
        forall|k: int| 0 <= k < j ==> #[trigger] sorted[k].time <= e.time,
        forall|k: int| j <= k < sorted.len() ==> #[trigger] sorted[k].time > e.time,
    ensures
        spec_sorted_by_time(sorted.insert(j, e)),
{
    let r = sorted.insert(j, e);
    assert forall|a: int, b: int| #![trigger r[a], r[b]] 0 <= a < b < r.len() implies r[a].time
        <= r[b].time by {
        if a < j {
            assert(r[a] == sorted[a]);
        } else if a == j {
            assert(r[a] == e);
        } else {
            assert(r[a] == sorted[a - 1]);
        }
        if b < j {
            assert(r[b] == sorted[b]);
        } else if b == j {
            assert(r[b] == e);
        } else {
            assert(r[b] == sorted[b - 1]);
        }
    }
}

/// Stable insertion adds exactly one event and keeps every per-event
/// bound: player indices below `n`, ticks at most `tb`.
pub proof fn lemma_insert_stable_bounds(sorted: Seq<RelevantEvent>, e: RelevantEvent, n: usize, tb: usize)
    requires
        forall|k: int| 0 <= k < sorted.len() ==> (#[trigger] sorted[k]).player_index < n,
        forall|k: int| 0 <= k < sorted.len() ==> (#[trigger] sorted[k]).time <= tb,
        e.player_index < n,
        e.time <= tb,
    ensures
        spec_insert_stable(sorted, e).len() == sorted.len() + 1,
        forall|k: int|
            0 <= k < sorted.len() + 1 ==> (#[trigger] spec_insert_stable(sorted, e)[k]).player_index
                < n,
        forall|k: int|
            0 <= k < sorted.len() + 1 ==> (#[trigger] spec_insert_stable(sorted, e)[k]).time <= tb,
    decreases sorted.len(),
{
    if sorted.len() == 0 {
    } else if sorted.last().time > e.time {
        lemma_insert_stable_bounds(sorted.drop_last(), e, n, tb);
    }
}

/// The stable sort keeps the length and every per-event bound.
pub proof fn lemma_sort_bounds(s: Seq<RelevantEvent>, n: usize, tb: usize)
    requires
        forall|k: int| 0 <= k < s.len() ==> (#[trigger] s[k]).player_index < n,
        forall|k: int| 0 <= k < s.len() ==> (#[trigger] s[k]).time <= tb,
    ensures
        spec_stable_sort_by_time(s).len() == s.len(),
        forall|k: int|
            0 <= k < s.len() ==> (#[trigger] spec_stable_sort_by_time(s)[k]).player_index < n,
        forall|k: int|
            0 <= k < s.len() ==> (#[trigger] spec_stable_sort_by_time(s)[k]).time <= tb,
    decreases s.len(),
{
    if s.len() > 0 {
        lemma_sort_bounds(s.drop_last(), n, tb);
        lemma_insert_stable_bounds(spec_stable_sort_by_time(s.drop_last()), s.last(), n, tb);
    }
}

/// Inserts one event into a time-sorted vector, keeping ties in arrival
/// order.
fn insert_stable(events: &mut Vec<RelevantEvent>, e: RelevantEvent)
    requires
        spec_sorted_by_time(old(events)@),
    ensures
        final(events)@ == spec_insert_stable(old(events)@, e),
        spec_sorted_by_time(final(events)@),
{
    let mut j = events.len();
    while j > 0 && events[j - 1].time > e.time
        invariant
            j <= events@.len(),
            forall|k: int| j <= k < events@.len() ==> #[trigger] events@[k].time > e.time,
        decreases j,
    {
        j = j - 1;
    }
    proof {
        assert(forall|k: int| 0 <= k < j ==> #[trigger] events@[k].time <= e.time);
        lemma_insert_stable_at(events@, e, j as int);
        lemma_insert_stable_sorted(events@, e, j as int);
    }
    events.insert(j, e);
}

/// The fused timeline: all collected events stable-sorted by tick, so that
/// equal ticks keep player enumeration order and per-player emission order.
pub fn stable_sort_by_time(events: &Vec<RelevantEvent>) -> (r: Vec<RelevantEvent>)
    ensures
        r@ == spec_stable_sort_by_time(events@),
        spec_sorted_by_time(r@),
{
    let mut out: Vec<RelevantEvent> = Vec::new();
    let mut i: usize = 0;
    while i < events.len()
        invariant
            i <= events@.len(),
            out@ == spec_stable_sort_by_time(events@.take(i as int)),
            spec_sorted_by_time(out@),
        decreases events@.len() - i,
    {
        insert_stable(&mut out, events[i]);
        i = i + 1;
        proof {
            assert(events@.take(i as int).drop_last() =~= events@.take(i as int - 1));
            assert(events@.take(i as int).last() == events@[i as int - 1]);
        }
    }
    proof {
        assert(events@.take(events@.len() as int) =~= events@);
    }
    out
}

} // verus!
