//! The event store: its operations and a store in memory.

use crate::event::{d_tag, Event, EventV};
use crate::query::{admits, Selection, SelectionV};
use crate::text::str_eq;
use vstd::prelude::*;

verus! {

/// An event as the store keeps it, with the time at which it expires and
/// the time at which the relay received it.
#[derive(Debug, PartialEq, Eq)]
pub struct StoredEvent {
    pub event: Event,
    pub expires_at: Option<i64>,
    pub received_at: i64,
}

/// The mathematical value of a [`StoredEvent`].
pub struct StoredEventV {
    pub event: EventV,
    pub expires_at: Option<i64>,
    pub received_at: i64,
}

impl View for StoredEvent {
    type V = StoredEventV;

    open spec fn view(&self) -> StoredEventV {
        StoredEventV {
            event: self.event@,
            expires_at: self.expires_at,
            received_at: self.received_at,
        }
    }
}

/// The values of a list of stored events.
pub open spec fn row_views(rows: Seq<StoredEvent>) -> Seq<StoredEventV> {
    Seq::new(rows.len(), |i: int| rows[i]@)
}

/// Which stored events a deletion is aimed at.
#[derive(Debug, PartialEq, Eq)]
#[allow(inconsistent_fields)]
pub enum Target {
    /// Every version of an addressable event: same author, kind and
    /// discriminator.
    Addressable { pubkey: String, kind: u64, d_tag: String },
    /// The event of this id, if this author owns it.
    Owned { event_id: String, pubkey: String },
    /// Every event of this author.
    Author { pubkey: String },
}

/// The mathematical value of a [`Target`].
#[allow(inconsistent_fields)]
pub enum TargetV {
    Addressable { pubkey: Seq<char>, kind: u64, d_tag: Seq<char> },
    Owned { event_id: Seq<char>, pubkey: Seq<char> },
    Author { pubkey: Seq<char> },
}

impl View for Target {
    type V = TargetV;

    open spec fn view(&self) -> TargetV {
        match self {
            Target::Addressable { pubkey, kind, d_tag } => TargetV::Addressable {
                pubkey: pubkey@,
                kind: *kind,
                d_tag: d_tag@,
            },
            Target::Owned { event_id, pubkey } => TargetV::Owned {
                event_id: event_id@,
                pubkey: pubkey@,
            },
            Target::Author { pubkey } => TargetV::Author { pubkey: pubkey@ },
        }
    }
}

/// Whether a deletion is aimed at an event.
pub open spec fn hit(t: TargetV, e: EventV) -> bool {
    match t {
        TargetV::Addressable { pubkey, kind, d_tag: d } => e.pubkey == pubkey && e.kind == kind
            && d_tag(e.tags) == d,
        TargetV::Owned { event_id, pubkey } => e.id == event_id && e.pubkey == pubkey,
        TargetV::Author { pubkey } => e.pubkey == pubkey,
    }
}

/// The rows that a deletion leaves, in their order.
pub open spec fn without(rows: Seq<StoredEventV>, t: TargetV) -> Seq<StoredEventV>
    decreases rows.len(),
{
    if rows.len() == 0 {
        Seq::empty()
    } else if hit(t, rows.last().event) {
        without(rows.drop_last(), t)
    } else {
        without(rows.drop_last(), t).push(rows.last())
    }
}

/// Whether some row holds the event of this id.
pub open spec fn holds_id(rows: Seq<StoredEventV>, id: Seq<char>) -> bool {
    exists|i: int| 0 <= i < rows.len() && (#[trigger] rows[i]).event.id == id
}

/// The rows after an insertion that does nothing where the id is taken.
pub open spec fn inserted(rows: Seq<StoredEventV>, row: StoredEventV) -> Seq<StoredEventV> {
    if holds_id(rows, row.event.id) {
        rows
    } else {
        rows.push(row)
    }
}

/// No two rows hold the same event id.
pub open spec fn unique_ids(rows: Seq<StoredEventV>) -> bool {
    forall|i: int, j: int|
        0 <= i < j < rows.len() ==> (#[trigger] rows[i]).event.id != (#[trigger] rows[j]).event.id
}

/// Whether a row has not expired at `now`.
pub open spec fn live(row: StoredEventV, now: i64) -> bool {
    row.expires_at matches Some(t) ==> t > now
}

/// The events that a selection lets through, in the order of their rows:
/// those that have not expired and that it admits.
pub open spec fn candidates(rows: Seq<StoredEventV>, sel: SelectionV, now: i64) -> Seq<EventV>
    decreases rows.len(),
{
    if rows.len() == 0 {
        Seq::empty()
    } else if live(rows.last(), now) && admits(sel, rows.last().event) {
        candidates(rows.drop_last(), sel, now).push(rows.last().event)
    } else {
        candidates(rows.drop_last(), sel, now)
    }
}

/// An event put into a list that runs from newest to oldest, behind those
/// that are as new as it is.
pub open spec fn placed(sorted: Seq<EventV>, e: EventV) -> Seq<EventV>
    decreases sorted.len(),
{
    if sorted.len() == 0 {
        seq![e]
    } else if sorted.last().created_at >= e.created_at {
        sorted.push(e)
    } else {
        placed(sorted.drop_last(), e).push(sorted.last())
    }
}

/// The events from newest to oldest; events of one time keep their order.
pub open spec fn ranked(events: Seq<EventV>) -> Seq<EventV>
    decreases events.len(),
{
    if events.len() == 0 {
        Seq::empty()
    } else {
        placed(ranked(events.drop_last()), events.last())
    }
}

/// The first `n` of a list, and the whole list where it is shorter.
pub open spec fn first_n(events: Seq<EventV>, n: u64) -> Seq<EventV> {
    if events.len() <= n {
        events
    } else {
        events.take(n as int)
    }
}

/// What a historical read returns: the newest of the candidates, up to the
/// selection's limit, from newest to oldest.
pub open spec fn selected(rows: Seq<StoredEventV>, sel: SelectionV, now: i64) -> Seq<EventV> {
    first_n(ranked(candidates(rows, sel, now)), sel.limit)
}

/// Whether a list runs from newest to oldest.
pub open spec fn newest_first(events: Seq<EventV>) -> bool {
    forall|i: int, j: int|
        0 <= i <= j < events.len() ==> (#[trigger] events[i]).created_at >= (
        #[trigger] events[j]).created_at
}

/// The ids of the rows, in their order.
pub open spec fn row_ids(rows: Seq<StoredEventV>) -> Seq<Seq<char>> {
    Seq::new(rows.len(), |i: int| rows[i].event.id)
}

/// The values of a list of events.
pub open spec fn event_views(events: Seq<Event>) -> Seq<EventV> {
    Seq::new(events.len(), |i: int| events[i]@)
}

/// The events of the rows, in their order.
pub open spec fn row_events(rows: Seq<StoredEventV>) -> Seq<EventV> {
    Seq::new(rows.len(), |i: int| rows[i].event)
}

/// A deletion leaves exactly the rows that it is not aimed at.
pub proof fn lemma_without_members(rows: Seq<StoredEventV>, t: TargetV)
    ensures
        forall|r: StoredEventV| #[trigger]
            without(rows, t).contains(r) <==> rows.contains(r) && !hit(t, r.event),
        without(rows, t).len() <= rows.len(),
    decreases rows.len(),
{
    broadcast use vstd::seq_lib::lemma_seq_contains_after_push;

    if rows.len() > 0 {
        let rest = rows.drop_last();
        let last = rows.last();
        lemma_without_members(rest, t);
        assert(rows =~= rest.push(last));
    }
}

/// A deletion keeps the ids of the store apart.
pub proof fn lemma_without_unique(rows: Seq<StoredEventV>, t: TargetV)
    requires
        unique_ids(rows),
    ensures
        unique_ids(without(rows, t)),
    decreases rows.len(),
{
    if rows.len() > 0 {
        let rest = rows.drop_last();
        assert forall|i: int, j: int| 0 <= i < j < rest.len() implies (#[trigger] rest[i]).event.id
            != (#[trigger] rest[j]).event.id by {
            assert(rest[i] == rows[i] && rest[j] == rows[j]);
        }
        lemma_without_unique(rest, t);
        lemma_without_members(rest, t);
        let out = without(rows, t);
        let prev = without(rest, t);
        if !hit(t, rows.last().event) {
            assert forall|i: int, j: int| 0 <= i < j < out.len() implies (
            #[trigger] out[i]).event.id != (#[trigger] out[j]).event.id by {
                if j == out.len() - 1 {
                    assert(prev[i] == out[i]);
                    assert(prev.contains(out[i]));
                    assert(rest.contains(out[i]));
                    let k = choose|k: int| 0 <= k < rest.len() && rest[k] == out[i];
                    assert(rows[k] == out[i]);
                    assert(rows[rows.len() - 1] == out[j]);
                } else {
                    assert(prev[i] == out[i]);
                    assert(prev[j] == out[j]);
                }
            }
        }
    }
}

/// An insertion keeps the ids of the store apart.
pub proof fn lemma_inserted_unique(rows: Seq<StoredEventV>, row: StoredEventV)
    requires
        unique_ids(rows),
    ensures
        unique_ids(inserted(rows, row)),
{
    if !holds_id(rows, row.event.id) {
        let out = rows.push(row);
        assert forall|i: int, j: int| 0 <= i < j < out.len() implies (#[trigger] out[i]).event.id
            != (#[trigger] out[j]).event.id by {
            if j == rows.len() {
                assert(rows[i] == out[i]);
            } else {
                assert(rows[i] == out[i] && rows[j] == out[j]);
            }
        }
    }
}

/// The place at which `placed` puts an event: behind the last event that is
/// as new as it is.
proof fn lemma_placed_at(sorted: Seq<EventV>, e: EventV, at: int)
    requires
        0 <= at <= sorted.len(),
        at > 0 ==> sorted[at - 1].created_at >= e.created_at,
        forall|k: int| at <= k < sorted.len() ==> (#[trigger] sorted[k]).created_at < e.created_at,
    ensures
        placed(sorted, e) == sorted.insert(at, e),
    decreases sorted.len(),
{
    if sorted.len() == 0 {
        assert(sorted.insert(at, e) =~= seq![e]);
    } else if at == sorted.len() {
        assert(sorted.insert(at, e) =~= sorted.push(e));
    } else {
        let rest = sorted.drop_last();
        assert(sorted[sorted.len() - 1].created_at < e.created_at);
        assert forall|k: int| at <= k < rest.len() implies (#[trigger] rest[k]).created_at
            < e.created_at by {
            assert(rest[k] == sorted[k]);
        }
        lemma_placed_at(rest, e, at);
        assert(rest.insert(at, e).push(sorted.last()) =~= sorted.insert(at, e));
    }
}

/// An event placed into a list that runs from newest to oldest leaves it so.
proof fn lemma_placed_sorted(sorted: Seq<EventV>, e: EventV)
    requires
        newest_first(sorted),
    ensures
        newest_first(placed(sorted, e)),
        placed(sorted, e).len() == sorted.len() + 1,
        forall|x: EventV| #[trigger]
            placed(sorted, e).contains(x) <==> x == e || sorted.contains(x),
    decreases sorted.len(),
{
    broadcast use vstd::seq_lib::lemma_seq_contains_after_push;

    if sorted.len() > 0 && sorted.last().created_at < e.created_at {
        let rest = sorted.drop_last();
        let last = sorted.last();
        assert(sorted =~= rest.push(last));
        assert forall|i: int, j: int| 0 <= i <= j < rest.len() implies (
        #[trigger] rest[i]).created_at >= (#[trigger] rest[j]).created_at by {
            assert(rest[i] == sorted[i] && rest[j] == sorted[j]);
        }
        lemma_placed_sorted(rest, e);
        let inner = placed(rest, e);
        let out = inner.push(last);
        assert forall|i: int, j: int| 0 <= i <= j < out.len() implies (
        #[trigger] out[i]).created_at >= (#[trigger] out[j]).created_at by {
            if j == out.len() - 1 && i < j {
                assert(inner.contains(inner[i]));
                if inner[i] != e {
                    assert(rest.contains(inner[i]));
                    let k = choose|k: int| 0 <= k < rest.len() && rest[k] == inner[i];
                    assert(sorted[k] == inner[i]);
                    assert(sorted[k].created_at >= sorted[sorted.len() - 1].created_at);
                }
            } else if i < j {
                assert(inner[i] == out[i] && inner[j] == out[j]);
            }
        }
    } else if sorted.len() > 0 {
        let out = sorted.push(e);
        assert forall|i: int, j: int| 0 <= i <= j < out.len() implies (
        #[trigger] out[i]).created_at >= (#[trigger] out[j]).created_at by {
            if j == out.len() - 1 && i < j {
                assert(sorted[i].created_at >= sorted[sorted.len() - 1].created_at);
            } else if i < j {
                assert(sorted[i] == out[i] && sorted[j] == out[j]);
            }
        }
    } else {
        assert(seq![e] =~= Seq::<EventV>::empty().push(e));
    }
}

/// Ranking orders the events from newest to oldest and neither adds nor
/// loses one.
pub proof fn lemma_ranked(events: Seq<EventV>)
    ensures
        newest_first(ranked(events)),
        ranked(events).len() == events.len(),
        forall|x: EventV| #[trigger] ranked(events).contains(x) <==> events.contains(x),
    decreases events.len(),
{
    broadcast use vstd::seq_lib::lemma_seq_contains_after_push;

    if events.len() > 0 {
        let rest = events.drop_last();
        lemma_ranked(rest);
        lemma_placed_sorted(ranked(rest), events.last());
        assert(events =~= rest.push(events.last()));
    }
}

/// Every candidate is the event of a row that has not expired and that the
/// selection admits.
pub proof fn lemma_candidates(rows: Seq<StoredEventV>, sel: SelectionV, now: i64)
    ensures
        forall|x: EventV| #[trigger]
            candidates(rows, sel, now).contains(x) <==> exists|i: int|
                0 <= i < rows.len() && (#[trigger] rows[i]).event == x && live(rows[i], now)
                    && admits(sel, x),
    decreases rows.len(),
{
    broadcast use vstd::seq_lib::lemma_seq_contains_after_push;

    let out = candidates(rows, sel, now);
    if rows.len() > 0 {
        let rest = rows.drop_last();
        let last = rows.last();
        lemma_candidates(rest, sel, now);
        let prev = candidates(rest, sel, now);
        assert forall|x: EventV| #[trigger]
            out.contains(x) <==> exists|i: int|
                0 <= i < rows.len() && (#[trigger] rows[i]).event == x && live(rows[i], now)
                    && admits(sel, x) by {
            if out.contains(x) {
                if prev.contains(x) {
                    let i = choose|i: int|
                        0 <= i < rest.len() && (#[trigger] rest[i]).event == x && live(
                            rest[i],
                            now,
                        ) && admits(sel, x);
                    assert(rows[i] == rest[i]);
                } else {
                    assert(rows[rows.len() - 1] == last);
                }
            }
            if exists|i: int|
                0 <= i < rows.len() && (#[trigger] rows[i]).event == x && live(rows[i], now)
                    && admits(sel, x) {
                let i = choose|i: int|
                    0 <= i < rows.len() && (#[trigger] rows[i]).event == x && live(rows[i], now)
                        && admits(sel, x);
                if i < rows.len() - 1 {
                    assert(rest[i] == rows[i]);
                    assert(prev.contains(x));
                }
            }
        }
    }
}

/// A historical read returns no more events than the selection's limit,
/// from newest to oldest, each the event of a stored row that has not
/// expired and that the selection admits.
pub proof fn lemma_selected(rows: Seq<StoredEventV>, sel: SelectionV, now: i64)
    ensures
        selected(rows, sel, now).len() <= sel.limit,
        newest_first(selected(rows, sel, now)),
        forall|k: int|
            0 <= k < selected(rows, sel, now).len() ==> admits(
                sel,
                #[trigger] selected(rows, sel, now)[k],
            ) && exists|i: int|
                0 <= i < rows.len() && (#[trigger] rows[i]).event == selected(rows, sel, now)[k]
                    && live(rows[i], now),
{
    let c = candidates(rows, sel, now);
    let r = ranked(c);
    let out = selected(rows, sel, now);
    lemma_ranked(c);
    lemma_candidates(rows, sel, now);
    assert forall|i: int, j: int| 0 <= i <= j < out.len() implies (#[trigger] out[i]).created_at
        >= (#[trigger] out[j]).created_at by {
        assert(out[i] == r[i] && out[j] == r[j]);
    }
    assert forall|k: int| 0 <= k < out.len() implies admits(sel, #[trigger] out[k]) && exists|
        i: int,
    |
        0 <= i < rows.len() && (#[trigger] rows[i]).event == out[k] && live(rows[i], now) by {
        assert(out[k] == r[k]);
        assert(r.contains(r[k]));
        assert(c.contains(out[k]));
    }
}

/// The number of events of a list that are at least as new as a time.
pub open spec fn as_new(events: Seq<EventV>, t: u64) -> nat
    decreases events.len(),
{
    if events.len() == 0 {
        0
    } else if events.last().created_at >= t {
        as_new(events.drop_last(), t) + 1
    } else {
        as_new(events.drop_last(), t)
    }
}

/// Placing an event adds one to the events as new as a time where it is as
/// new itself, and nothing where it is not.
pub proof fn lemma_placed_as_new(sorted: Seq<EventV>, e: EventV, t: u64)
    ensures
        as_new(placed(sorted, e), t) == as_new(sorted, t) + if e.created_at >= t {
            1nat
        } else {
            0nat
        },
    decreases sorted.len(),
{
    let out = placed(sorted, e);
    if sorted.len() == 0 {
        assert(out.drop_last() =~= sorted);
        assert(out.last() == e);
        assert(as_new(sorted, t) == 0);
    } else if sorted.last().created_at >= e.created_at {
        assert(out.drop_last() =~= sorted);
        assert(out.last() == e);
    } else {
        let rest = sorted.drop_last();
        lemma_placed_as_new(rest, e, t);
        assert(out.drop_last() =~= placed(rest, e));
        assert(out.last() == sorted.last());
    }
}

/// Ranking keeps the number of events as new as a time.
pub proof fn lemma_ranked_as_new(events: Seq<EventV>, t: u64)
    ensures
        as_new(ranked(events), t) == as_new(events, t),
    decreases events.len(),
{
    if events.len() > 0 {
        lemma_ranked_as_new(events.drop_last(), t);
        lemma_placed_as_new(ranked(events.drop_last()), events.last(), t);
    }
}

/// In a list from newest to oldest, every event up to one that is as new as
/// a time is as new as that time.
pub proof fn lemma_front_as_new(events: Seq<EventV>, j: int, t: u64)
    requires
        newest_first(events),
        0 <= j < events.len(),
        events[j].created_at >= t,
    ensures
        as_new(events.take(j + 1), t) == j + 1,
    decreases j,
{
    let front = events.take(j + 1);
    assert(front.drop_last() =~= events.take(j));
    assert(front.last() == events[j]);
    assert(as_new(front, t) == as_new(front.drop_last(), t) + 1);
    if j > 0 {
        assert(events[j - 1].created_at >= events[j].created_at);
        lemma_front_as_new(events, j - 1, t);
    } else {
        assert(as_new(events.take(0), t) == 0);
    }
}

/// A part of a list holds no more events as new as a time than the whole.
pub proof fn lemma_part_as_new(events: Seq<EventV>, k: int, t: u64)
    requires
        0 <= k <= events.len(),
    ensures
        as_new(events.take(k), t) <= as_new(events, t),
    decreases events.len() - k,
{
    if k < events.len() {
        assert(events.take(k + 1).drop_last() =~= events.take(k));
        lemma_part_as_new(events, k + 1, t);
    } else {
        assert(events.take(k) =~= events);
    }
}

/// A historical read returns a candidate wherever the candidates that are
/// at least as new as it, itself among them, fit the selection's limit.
pub proof fn lemma_selected_holds(rows: Seq<StoredEventV>, sel: SelectionV, now: i64, x: EventV)
    requires
        candidates(rows, sel, now).contains(x),
        as_new(candidates(rows, sel, now), x.created_at) <= sel.limit,
    ensures
        selected(rows, sel, now).contains(x),
{
    let c = candidates(rows, sel, now);
    let r = ranked(c);
    lemma_ranked(c);
    lemma_ranked_as_new(c, x.created_at);
    assert(r.contains(x));
    let j = choose|j: int| 0 <= j < r.len() && r[j] == x;
    lemma_front_as_new(r, j, x.created_at);
    lemma_part_as_new(r, j + 1, x.created_at);
    assert(j < sel.limit);
    assert(selected(rows, sel, now)[j] == x);
}

/// No two events of a list have the same id.
pub open spec fn distinct_ids(events: Seq<EventV>) -> bool {
    forall|i: int, j: int|
        0 <= i < j < events.len() ==> (#[trigger] events[i]).id != (#[trigger] events[j]).id
}

/// Placing an event adds it and nothing else.
pub proof fn lemma_placed_members(sorted: Seq<EventV>, e: EventV)
    ensures
        placed(sorted, e).len() == sorted.len() + 1,
        forall|x: EventV| #[trigger]
            placed(sorted, e).contains(x) <==> x == e || sorted.contains(x),
    decreases sorted.len(),
{
    broadcast use vstd::seq_lib::lemma_seq_contains_after_push;

    if sorted.len() == 0 {
        assert(seq![e] =~= Seq::<EventV>::empty().push(e));
    } else if sorted.last().created_at < e.created_at {
        let rest = sorted.drop_last();
        lemma_placed_members(rest, e);
        assert(sorted =~= rest.push(sorted.last()));
    }
}

/// Placing an event whose id is new keeps the ids apart.
pub proof fn lemma_placed_distinct(sorted: Seq<EventV>, e: EventV)
    requires
        distinct_ids(sorted),
        forall|k: int| 0 <= k < sorted.len() ==> (#[trigger] sorted[k]).id != e.id,
    ensures
        distinct_ids(placed(sorted, e)),
    decreases sorted.len(),
{
    let out = placed(sorted, e);
    if sorted.len() > 0 && sorted.last().created_at >= e.created_at {
        assert forall|i: int, j: int| 0 <= i < j < out.len() implies (#[trigger] out[i]).id != (
        #[trigger] out[j]).id by {
            if j == sorted.len() {
                assert(out[i] == sorted[i]);
            } else {
                assert(out[i] == sorted[i] && out[j] == sorted[j]);
            }
        }
    } else if sorted.len() > 0 {
        let rest = sorted.drop_last();
        let last = sorted.last();
        assert forall|i: int, j: int| 0 <= i < j < rest.len() implies (#[trigger] rest[i]).id != (
        #[trigger] rest[j]).id by {
            assert(rest[i] == sorted[i] && rest[j] == sorted[j]);
        }
        assert forall|k: int| 0 <= k < rest.len() implies (#[trigger] rest[k]).id != e.id by {
            assert(rest[k] == sorted[k]);
        }
        lemma_placed_distinct(rest, e);
        lemma_placed_members(rest, e);
        let inner = placed(rest, e);
        assert(sorted[sorted.len() - 1] == last);
        assert forall|i: int, j: int| 0 <= i < j < out.len() implies (#[trigger] out[i]).id != (
        #[trigger] out[j]).id by {
            if j == inner.len() {
                assert(out[i] == inner[i]);
                assert(inner.contains(inner[i]));
                if inner[i] != e {
                    let k = choose|k: int| 0 <= k < rest.len() && rest[k] == inner[i];
                    assert(sorted[k] == inner[i]);
                }
            } else {
                assert(out[i] == inner[i] && out[j] == inner[j]);
            }
        }
    }
}

/// Ranking keeps the ids apart.
pub proof fn lemma_ranked_distinct(events: Seq<EventV>)
    requires
        distinct_ids(events),
    ensures
        distinct_ids(ranked(events)),
    decreases events.len(),
{
    if events.len() > 0 {
        let rest = events.drop_last();
        assert forall|i: int, j: int| 0 <= i < j < rest.len() implies (#[trigger] rest[i]).id != (
        #[trigger] rest[j]).id by {
            assert(rest[i] == events[i] && rest[j] == events[j]);
        }
        lemma_ranked_distinct(rest);
        lemma_ranked(rest);
        let sorted = ranked(rest);
        assert forall|k: int| 0 <= k < sorted.len() implies (#[trigger] sorted[k]).id
            != events.last().id by {
            assert(sorted.contains(sorted[k]));
            let m = choose|m: int| 0 <= m < rest.len() && rest[m] == sorted[k];
            assert(events[m] == sorted[k]);
            assert(events[events.len() - 1] == events.last());
        }
        lemma_placed_distinct(sorted, events.last());
    }
}

/// The candidates of a store whose ids are apart have their ids apart.
pub proof fn lemma_candidates_distinct(rows: Seq<StoredEventV>, sel: SelectionV, now: i64)
    requires
        unique_ids(rows),
    ensures
        distinct_ids(candidates(rows, sel, now)),
    decreases rows.len(),
{
    let out = candidates(rows, sel, now);
    if rows.len() > 0 {
        let rest = rows.drop_last();
        assert forall|i: int, j: int| 0 <= i < j < rest.len() implies (
        #[trigger] rest[i]).event.id != (#[trigger] rest[j]).event.id by {
            assert(rest[i] == rows[i] && rest[j] == rows[j]);
        }
        lemma_candidates_distinct(rest, sel, now);
        lemma_candidates(rest, sel, now);
        let prev = candidates(rest, sel, now);
        assert forall|i: int, j: int| 0 <= i < j < out.len() implies (#[trigger] out[i]).id != (
        #[trigger] out[j]).id by {
            if j < prev.len() {
                assert(out[i] == prev[i] && out[j] == prev[j]);
            } else {
                assert(out[i] == prev[i]);
                assert(prev.contains(prev[i]));
                let m = choose|m: int|
                    0 <= m < rest.len() && (#[trigger] rest[m]).event == prev[i] && live(
                        rest[m],
                        now,
                    ) && admits(sel, prev[i]);
                assert(rows[m] == rest[m]);
                assert(rows[rows.len() - 1].event == out[j]);
            }
        }
    }
}

/// A historical read of a store whose ids are apart returns no id twice.
pub proof fn lemma_selected_distinct(rows: Seq<StoredEventV>, sel: SelectionV, now: i64)
    requires
        unique_ids(rows),
    ensures
        distinct_ids(selected(rows, sel, now)),
{
    let c = candidates(rows, sel, now);
    lemma_candidates_distinct(rows, sel, now);
    lemma_ranked_distinct(c);
    let r = ranked(c);
    let out = selected(rows, sel, now);
    assert forall|i: int, j: int| 0 <= i < j < out.len() implies (#[trigger] out[i]).id != (
    #[trigger] out[j]).id by {
        assert(out[i] == r[i] && out[j] == r[j]);
    }
}

/// A historical read returns the newest: a candidate that it leaves out is
/// no newer than any event that it returns.
pub proof fn lemma_selected_newest(rows: Seq<StoredEventV>, sel: SelectionV, now: i64, x: EventV)
    requires
        candidates(rows, sel, now).contains(x),
        !selected(rows, sel, now).contains(x),
    ensures
        forall|k: int|
            0 <= k < selected(rows, sel, now).len() ==> (#[trigger] selected(
                rows,
                sel,
                now,
            )[k]).created_at >= x.created_at,
{
    let c = candidates(rows, sel, now);
    let r = ranked(c);
    let out = selected(rows, sel, now);
    lemma_ranked(c);
    assert(r.contains(x));
    let j = choose|j: int| 0 <= j < r.len() && r[j] == x;
    if j < out.len() {
        assert(out[j] == x);
    }
    assert forall|k: int| 0 <= k < out.len() implies (#[trigger] out[k]).created_at
        >= x.created_at by {
        assert(out[k] == r[k]);
        assert(r[k].created_at >= r[j].created_at);
    }
}

fn aimed_at(t: &Target, e: &Event) -> (r: bool)
    ensures
        r == hit(t@, e@),
{
    match t {
        Target::Addressable { pubkey, kind, d_tag } => {
            if !str_eq(e.pubkey.as_str(), pubkey.as_str()) || e.kind != *kind {
                return false;
            }
            let d = e.d_tag_value();
            str_eq(d.as_str(), d_tag.as_str())
        },
        Target::Owned { event_id, pubkey } => str_eq(e.id.as_str(), event_id.as_str()) && str_eq(
            e.pubkey.as_str(),
            pubkey.as_str(),
        ),
        Target::Author { pubkey } => str_eq(e.pubkey.as_str(), pubkey.as_str()),
    }
}

fn place(sorted: &mut Vec<Event>, e: Event)
    ensures
        event_views(final(sorted)@) == placed(event_views(old(sorted)@), e@),
{
    let ghost before = event_views(sorted@);
    let mut at: usize = sorted.len();
    while at > 0 && sorted[at - 1].created_at < e.created_at
        invariant
            at <= sorted.len(),
            sorted@ == old(sorted)@,
            before == event_views(sorted@),
            forall|k: int| at <= k < before.len() ==> (#[trigger] before[k]).created_at
                < e@.created_at,
        decreases at,
    {
        at -= 1;
    }
    proof {
        lemma_placed_at(before, e@, at as int);
    }
    sorted.insert(at, e);
    assert(event_views(sorted@) =~= before.insert(at as int, e@));
}

/// The event store of the relay, held in memory: the rows in the order in
/// which they came. No two rows of a well-formed store hold the same id.
pub struct EventStore {
    rows: Vec<StoredEvent>,
}

impl View for EventStore {
    type V = Seq<StoredEventV>;

    closed spec fn view(&self) -> Seq<StoredEventV> {
        row_views(self.rows@)
    }
}

impl EventStore {
    /// No two rows hold the same event id.
    pub open spec fn wf(&self) -> bool {
        unique_ids(self@)
    }

    /// The empty store.
    pub fn new() -> (r: EventStore)
        ensures
            r@ == Seq::<StoredEventV>::empty(),
            r.wf(),
    {
        let r = EventStore { rows: Vec::new() };
        assert(r@ =~= Seq::<StoredEventV>::empty());
        r
    }

    /// The number of rows.
    pub fn len(&self) -> (r: usize)
        ensures
            r == self@.len(),
    {
        self.rows.len()
    }

    /// The rows, in the order in which they came.
    pub fn rows(&self) -> (r: &Vec<StoredEvent>)
        ensures
            row_views(r@) == self@,
    {
        &self.rows
    }

    /// Whether a row holds the event of this id.
    pub fn contains_id(&self, id: &str) -> (r: bool)
        ensures
            r == holds_id(self@, id@),
    {
        let mut i: usize = 0;
        while i < self.rows.len()
            invariant
                i <= self.rows.len(),
                forall|k: int| 0 <= k < i ==> (#[trigger] self@[k]).event.id != id@,
            decreases self.rows.len() - i,
        {
            assert(self@[i as int] == self.rows@[i as int]@);
            if str_eq(self.rows[i].event.id.as_str(), id) {
                return true;
            }
            i += 1;
        }
        false
    }

    /// Inserts an event unless its id is taken; says whether it did.
    pub fn insert(&mut self, event: Event, expires_at: Option<i64>, received_at: i64) -> (r: bool)
        ensures
            r == !holds_id(old(self)@, event@.id),
            final(self)@ == inserted(
                old(self)@,
                StoredEventV { event: event@, expires_at, received_at },
            ),
            old(self).wf() ==> final(self).wf(),
    {
        proof {
            if old(self).wf() {
                lemma_inserted_unique(
                    old(self)@,
                    StoredEventV { event: event@, expires_at, received_at },
                );
            }
        }
        if self.contains_id(event.id.as_str()) {
            return false;
        }
        let ghost before = self@;
        let row = StoredEvent { event, expires_at, received_at };
        self.rows.push(row);
        assert(self@ =~= before.push(row@));
        true
    }

    /// Deletes the rows that the target is aimed at; says how many.
    pub fn delete(&mut self, target: &Target) -> (n: usize)
        ensures
            final(self)@ == without(old(self)@, target@),
            n == old(self)@.len() - final(self)@.len(),
            old(self).wf() ==> final(self).wf(),
    {
        proof {
            if old(self).wf() {
                lemma_without_unique(old(self)@, target@);
            }
        }
        let ghost all = self@;
        let ghost mut seen: int = 0;
        let mut n: usize = 0;
        let mut i: usize = 0;
        assert(all.take(0) =~= Seq::empty());
        assert(self@ =~= without(all.take(0), target@) + all.skip(0));
        assert(all.len() == self.rows.len());
        while i < self.rows.len()
            invariant
                0 <= seen <= all.len(),
                i == without(all.take(seen), target@).len(),
                self@ == without(all.take(seen), target@) + all.skip(seen),
                n == seen - i,
                i <= self.rows.len(),
                n <= all.len(),
                all.len() <= usize::MAX,
            decreases all.len() - seen,
        {
            let ghost kept = without(all.take(seen), target@);
            let ghost upto = all.take(seen + 1);
            assert(self@[i as int] == all.skip(seen)[0]);
            assert(seen < all.len());
            assert(upto.drop_last() =~= all.take(seen));
            assert(upto.last() == all[seen]);
            assert(self@[i as int] == self.rows@[i as int]@);
            if aimed_at(target, &self.rows[i].event) {
                let ghost before = self.rows@;
                self.rows.remove(i);
                assert(self@ =~= kept + all.skip(seen + 1)) by {
                    let was = row_views(before);
                    let now_is = kept + all.skip(seen + 1);
                    assert(was == kept + all.skip(seen));
                    assert(self.rows@ == before.remove(i as int));
                    assert(self@.len() == was.len() - 1);
                    assert(now_is.len() == was.len() - 1);
                    assert forall|k: int| 0 <= k < self@.len() implies self@[k] == now_is[k] by {
                        if k < i {
                            assert(self.rows@[k] == before[k]);
                            assert(was[k] == before[k]@);
                            assert(was[k] == kept[k]);
                        } else {
                            assert(self.rows@[k] == before[k + 1]);
                            assert(was[k + 1] == before[k + 1]@);
                            assert(was[k + 1] == all.skip(seen)[k + 1 - i]);
                            assert(now_is[k] == all.skip(seen + 1)[k - i]);
                        }
                    }
                }
                n += 1;
            } else {
                assert(self@ =~= kept.push(all[seen]) + all.skip(seen + 1));
                i += 1;
            }
            proof {
                seen = seen + 1;
            }
        }
        proof {
            assert(self@.len() == i + (all.len() - seen));
            assert(seen == all.len());
            assert(all.take(seen) =~= all);
            assert(self@ =~= without(all, target@));
        }
        n
    }

    /// Reads the newest events that a selection lets through at time `now`,
    /// from newest to oldest, up to the selection's limit.
    pub fn select(&self, sel: &Selection, now: i64) -> (r: Vec<Event>)
        ensures
            event_views(r@) == selected(self@, sel@, now),
    {
        let ghost all = self@;
        let mut out: Vec<Event> = Vec::new();
        let mut i: usize = 0;
        assert(all.take(0) =~= Seq::empty());
        assert(event_views(out@) =~= Seq::empty());
        while i < self.rows.len()
            invariant
                i <= self.rows.len(),
                all == self@,
                event_views(out@) == ranked(candidates(all.take(i as int), sel@, now)),
            decreases self.rows.len() - i,
        {
            let ghost upto = all.take(i + 1);
            assert(upto.drop_last() =~= all.take(i as int));
            assert(upto.last() == self.rows@[i as int]@);
            let row = &self.rows[i];
            let alive = match row.expires_at {
                Some(t) => t > now,
                None => true,
            };
            if alive && let_through(sel, &row.event) {
                let ghost c = candidates(all.take(i as int), sel@, now);
                assert(c.push(row.event@).drop_last() =~= c);
                assert(c.push(row.event@).last() == row.event@);
                place(&mut out, row.event.clone());
            }
            i += 1;
        }
        assert(all.take(i as int) =~= all);
        if out.len() as u64 > sel.limit {
            let ghost before = event_views(out@);
            out.truncate(sel.limit as usize);
            assert(event_views(out@) =~= before.take(sel.limit as int));
        }
        out
    }

    /// The stored events, in the order of their rows.
    pub fn all_events(&self) -> (r: Vec<Event>)
        ensures
            event_views(r@) == row_events(self@),
    {
        let mut r: Vec<Event> = Vec::new();
        let mut i: usize = 0;
        while i < self.rows.len()
            invariant
                i <= self.rows.len(),
                r.len() == i,
                forall|k: int| 0 <= k < i ==> r@[k]@ == self.rows@[k]@.event,
            decreases self.rows.len() - i,
        {
            r.push(self.rows[i].event.clone());
            i += 1;
        }
        assert(event_views(r@) =~= row_events(self@));
        r
    }

    /// The ids of the stored events, in the order of their rows.
    pub fn ids(&self) -> (r: Vec<String>)
        ensures
            r.deep_view() == row_ids(self@),
    {
        let mut r: Vec<String> = Vec::new();
        let mut i: usize = 0;
        while i < self.rows.len()
            invariant
                i <= self.rows.len(),
                r.len() == i,
                forall|k: int| 0 <= k < i ==> r@[k]@ == self.rows@[k]@.event.id,
            decreases self.rows.len() - i,
        {
            r.push(self.rows[i].event.id.clone());
            i += 1;
        }
        assert(r.deep_view() =~= row_ids(self@));
        r
    }
}

/// Whether a selection lets an event through, its limit aside.
pub fn let_through(sel: &Selection, e: &Event) -> (r: bool)
    ensures
        r == admits(sel@, e@),
{
    if sel.kinds.len() > 0 {
        let mut found = false;
        let mut i: usize = 0;
        while i < sel.kinds.len()
            invariant
                i <= sel.kinds.len(),
                found == exists|k: int| 0 <= k < i && sel.kinds@[k] == e.kind,
            decreases sel.kinds.len() - i,
        {
            if sel.kinds[i] == e.kind {
                found = true;
            }
            i += 1;
        }
        if !found {
            return false;
        }
    }
    if sel.authors.len() > 0 {
        let mut found = false;
        let mut i: usize = 0;
        while i < sel.authors.len()
            invariant
                i <= sel.authors.len(),
                found == exists|k: int|
                    0 <= k < i && (#[trigger] sel.authors.deep_view()[k]).is_prefix_of(e@.pubkey),
            decreases sel.authors.len() - i,
        {
            assert(sel.authors.deep_view()[i as int] == sel.authors@[i as int]@);
            if crate::text::starts_with(e.pubkey.as_str(), sel.authors[i].as_str()) {
                found = true;
            }
            i += 1;
        }
        if !found {
            return false;
        }
    }
    if let Some(t) = sel.since {
        if e.created_at < t {
            return false;
        }
    }
    if let Some(t) = sel.until {
        if e.created_at > t {
            return false;
        }
    }
    true
}

} // verus!
