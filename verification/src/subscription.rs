//! Subscriptions: the registry of a connection, and the answers to
//! historical reads.

use crate::event::{restored, Event, EventV};
use crate::filter::{
    any_matches, filter_matches, filter_views, matches_any, Filter, FilterV,
};
use crate::message::{message_views, RelayMessage, RelayMessageV};
use crate::query::{lowered, MAX_LIMIT};
use crate::store::{
    candidates, distinct_ids, event_views, lemma_candidates, lemma_selected,
    lemma_selected_distinct, lemma_selected_newest, live, newest_first, selected, unique_ids,
    StoredEventV,
};
use crate::text::{joined, str_eq};
use vstd::prelude::*;

verus! {

/// A subscription of a connection: a name and the filters it stands for.
#[derive(Debug, PartialEq, Eq)]
pub struct Subscription {
    pub id: String,
    pub filters: Vec<Filter>,
}

/// The mathematical value of a [`Subscription`].
pub struct SubscriptionV {
    pub id: Seq<char>,
    pub filters: Seq<FilterV>,
}

impl View for Subscription {
    type V = SubscriptionV;

    open spec fn view(&self) -> SubscriptionV {
        SubscriptionV { id: self.id@, filters: filter_views(self.filters@) }
    }
}

/// The values of a list of subscriptions.
pub open spec fn subscription_views(subs: Seq<Subscription>) -> Seq<SubscriptionV> {
    Seq::new(subs.len(), |i: int| subs[i]@)
}

/// No two subscriptions have the same name.
pub open spec fn unique_names(subs: Seq<SubscriptionV>) -> bool {
    forall|i: int, j: int|
        0 <= i < j < subs.len() ==> (#[trigger] subs[i]).id != (#[trigger] subs[j]).id
}

/// Whether a subscription of this name is open.
pub open spec fn is_open(subs: Seq<SubscriptionV>, id: Seq<char>) -> bool {
    exists|i: int| 0 <= i < subs.len() && (#[trigger] subs[i]).id == id
}

/// The subscriptions without those of a name.
pub open spec fn closed(subs: Seq<SubscriptionV>, id: Seq<char>) -> Seq<SubscriptionV>
    decreases subs.len(),
{
    if subs.len() == 0 {
        Seq::empty()
    } else if subs.last().id == id {
        closed(subs.drop_last(), id)
    } else {
        closed(subs.drop_last(), id).push(subs.last())
    }
}

/// The subscriptions after one is opened: it takes the place of what had its
/// name.
pub open spec fn opened(
    subs: Seq<SubscriptionV>,
    id: Seq<char>,
    filters: Seq<FilterV>,
) -> Seq<SubscriptionV> {
    closed(subs, id).push(SubscriptionV { id, filters })
}

/// The names of the subscriptions that an event is for, in their order: each
/// subscription one of whose filters matches it, once.
pub open spec fn receivers(subs: Seq<SubscriptionV>, e: EventV) -> Seq<Seq<char>>
    decreases subs.len(),
{
    if subs.len() == 0 {
        Seq::empty()
    } else if any_matches(subs.last().filters, e) {
        receivers(subs.drop_last(), e).push(subs.last().id)
    } else {
        receivers(subs.drop_last(), e)
    }
}

/// The frames that carry one event to each of the named subscriptions.
pub open spec fn deliveries(names: Seq<Seq<char>>, e: EventV) -> Seq<RelayMessageV> {
    Seq::new(names.len(), |i: int| RelayMessageV::Event { sub_id: names[i], event: e })
}

/// The events that one of the filters matches, in their order.
pub open spec fn rechecked(filters: Seq<FilterV>, events: Seq<EventV>) -> Seq<EventV>
    decreases events.len(),
{
    if events.len() == 0 {
        Seq::empty()
    } else if any_matches(filters, events.last()) {
        rechecked(filters, events.drop_last()).push(events.last())
    } else {
        rechecked(filters, events.drop_last())
    }
}

/// The frames that carry the events to one subscription.
pub open spec fn event_frames(sub_id: Seq<char>, events: Seq<EventV>) -> Seq<RelayMessageV> {
    Seq::new(events.len(), |i: int| RelayMessageV::Event { sub_id, event: events[i] })
}

/// The answer to a subscription from the rows that the store returned: a
/// frame for each row that one of the filters matches, then the end marker.
pub open spec fn answered(
    sub_id: Seq<char>,
    filters: Seq<FilterV>,
    rows: Seq<EventV>,
) -> Seq<RelayMessageV> {
    event_frames(sub_id, rechecked(filters, rows)).push(RelayMessageV::Eose(sub_id))
}

/// The rows that the protocol library's decoder accepts, as it reads them,
/// in their order.
pub open spec fn readable(rows: Seq<EventV>) -> Seq<EventV>
    decreases rows.len(),
{
    if rows.len() == 0 {
        Seq::empty()
    } else if restored(rows.last()).is_some() {
        readable(rows.drop_last()).push(restored(rows.last()).unwrap())
    } else {
        readable(rows.drop_last())
    }
}

/// Closing leaves no subscription of the name, and the others as they were.
pub proof fn lemma_closed(subs: Seq<SubscriptionV>, id: Seq<char>)
    ensures
        !is_open(closed(subs, id), id),
        forall|s: SubscriptionV| #[trigger] closed(subs, id).contains(s) <==> subs.contains(s)
            && s.id != id,
        unique_names(subs) ==> unique_names(closed(subs, id)),
        closed(subs, id).len() <= subs.len(),
    decreases subs.len(),
{
    broadcast use vstd::seq_lib::lemma_seq_contains_after_push;

    let out = closed(subs, id);
    if subs.len() > 0 {
        let rest = subs.drop_last();
        let last = subs.last();
        lemma_closed(rest, id);
        let prev = closed(rest, id);
        assert(subs =~= rest.push(last));
        if is_open(out, id) {
            let i = choose|i: int| 0 <= i < out.len() && (#[trigger] out[i]).id == id;
            assert(out.contains(out[i]));
        }
        if unique_names(subs) {
            assert forall|i: int, j: int| 0 <= i < j < rest.len() implies (#[trigger] rest[i]).id
                != (#[trigger] rest[j]).id by {
                assert(rest[i] == subs[i] && rest[j] == subs[j]);
            }
            if last.id != id {
                assert forall|i: int, j: int| 0 <= i < j < out.len() implies (
                #[trigger] out[i]).id != (#[trigger] out[j]).id by {
                    if j == out.len() - 1 {
                        assert(prev[i] == out[i]);
                        assert(prev.contains(out[i]));
                        let k = choose|k: int| 0 <= k < rest.len() && rest[k] == out[i];
                        assert(subs[k] == out[i]);
                        assert(subs[subs.len() - 1] == out[j]);
                    } else {
                        assert(prev[i] == out[i] && prev[j] == out[j]);
                    }
                }
            }
        }
    } else {
        if is_open(out, id) {
            let i = choose|i: int| 0 <= i < out.len() && (#[trigger] out[i]).id == id;
        }
    }
}

/// Opening leaves exactly one subscription of the name, with the new
/// filters, and the names apart.
pub proof fn lemma_opened(subs: Seq<SubscriptionV>, id: Seq<char>, filters: Seq<FilterV>)
    ensures
        is_open(opened(subs, id, filters), id),
        forall|i: int|
            0 <= i < opened(subs, id, filters).len() && (#[trigger] opened(
                subs,
                id,
                filters,
            )[i]).id == id ==> opened(subs, id, filters)[i].filters == filters,
        unique_names(subs) ==> unique_names(opened(subs, id, filters)),
{
    lemma_closed(subs, id);
    let base = closed(subs, id);
    let out = opened(subs, id, filters);
    assert(out[base.len() as int].id == id);
    assert forall|i: int| 0 <= i < out.len() && (#[trigger] out[i]).id == id implies out[i].filters
        == filters by {
        if i < base.len() {
            assert(base[i] == out[i]);
            assert(base.contains(base[i]));
        }
    }
    if unique_names(subs) {
        assert forall|i: int, j: int| 0 <= i < j < out.len() implies (#[trigger] out[i]).id != (
        #[trigger] out[j]).id by {
            if j == base.len() {
                assert(base[i] == out[i]);
                assert(base.contains(base[i]));
            } else {
                assert(base[i] == out[i] && base[j] == out[j]);
            }
        }
    }
}

/// Every event of the recheck is one of the events given, and one that some
/// filter matches; none is added, and the order is kept.
pub proof fn lemma_rechecked(filters: Seq<FilterV>, events: Seq<EventV>)
    ensures
        rechecked(filters, events).len() <= events.len(),
        forall|k: int|
            0 <= k < rechecked(filters, events).len() ==> any_matches(
                filters,
                #[trigger] rechecked(filters, events)[k],
            ) && events.contains(rechecked(filters, events)[k]),
        newest_first(events) ==> newest_first(rechecked(filters, events)),
    decreases events.len(),
{
    let out = rechecked(filters, events);
    if events.len() > 0 {
        let rest = events.drop_last();
        let last = events.last();
        lemma_rechecked(filters, rest);
        let prev = rechecked(filters, rest);
        assert forall|k: int| 0 <= k < out.len() implies any_matches(filters, #[trigger] out[k])
            && events.contains(out[k]) by {
            if k < prev.len() {
                assert(out[k] == prev[k]);
                let i = choose|i: int| 0 <= i < rest.len() && rest[i] == prev[k];
                assert(events[i] == out[k]);
            } else {
                assert(events[events.len() - 1] == out[k]);
            }
        }
        if newest_first(events) {
            assert forall|i: int, j: int| 0 <= i <= j < rest.len() implies (
            #[trigger] rest[i]).created_at >= (#[trigger] rest[j]).created_at by {
                assert(rest[i] == events[i] && rest[j] == events[j]);
            }
            assert forall|i: int, j: int| 0 <= i <= j < out.len() implies (
            #[trigger] out[i]).created_at >= (#[trigger] out[j]).created_at by {
                if j < prev.len() {
                    assert(out[i] == prev[i] && out[j] == prev[j]);
                } else if i < j {
                    assert(out[i] == prev[i]);
                    let k = choose|k: int| 0 <= k < rest.len() && rest[k] == prev[i];
                    assert(events[k] == out[i]);
                    assert(events[k].created_at >= events[events.len() - 1].created_at);
                }
            }
        }
    }
}

/// The recheck keeps every event that one of the filters matches.
pub proof fn lemma_rechecked_keeps(filters: Seq<FilterV>, events: Seq<EventV>, x: EventV)
    requires
        events.contains(x),
        any_matches(filters, x),
    ensures
        rechecked(filters, events).contains(x),
    decreases events.len(),
{
    broadcast use vstd::seq_lib::lemma_seq_contains_after_push;

    let rest = events.drop_last();
    assert(events =~= rest.push(events.last()));
    if events.last() != x {
        lemma_rechecked_keeps(filters, rest, x);
    }
}

/// A subscription one of whose filters matches an event is among those that
/// the event is for.
pub proof fn lemma_subscriber_receives(subs: Seq<SubscriptionV>, e: EventV, k: int)
    requires
        0 <= k < subs.len(),
        any_matches(subs[k].filters, e),
    ensures
        receivers(subs, e).contains(subs[k].id),
    decreases subs.len(),
{
    broadcast use vstd::seq_lib::lemma_seq_contains_after_push;

    if k < subs.len() - 1 {
        lemma_subscriber_receives(subs.drop_last(), e, k);
    }
}

/// Every receiver of an event is the name of an open subscription.
pub proof fn lemma_receivers_are_open(subs: Seq<SubscriptionV>, e: EventV)
    ensures
        forall|k: int|
            0 <= k < receivers(subs, e).len() ==> is_open(subs, #[trigger] receivers(subs, e)[k]),
        receivers(subs, e).len() <= subs.len(),
    decreases subs.len(),
{
    let out = receivers(subs, e);
    if subs.len() > 0 {
        let rest = subs.drop_last();
        lemma_receivers_are_open(rest, e);
        let prev = receivers(rest, e);
        assert forall|k: int| 0 <= k < out.len() implies is_open(subs, #[trigger] out[k]) by {
            if k < prev.len() {
                assert(out[k] == prev[k]);
                let i = choose|i: int| 0 <= i < rest.len() && (#[trigger] rest[i]).id == prev[k];
                assert(subs[i] == rest[i]);
            } else {
                assert(subs[subs.len() - 1].id == out[k]);
            }
        }
    }
}

/// An event goes to a subscription once, however many of its filters match:
/// where no two subscriptions share a name, no name occurs twice among the
/// receivers.
pub proof fn lemma_receivers_once(subs: Seq<SubscriptionV>, e: EventV)
    requires
        unique_names(subs),
    ensures
        forall|i: int, j: int|
            0 <= i < j < receivers(subs, e).len() ==> receivers(subs, e)[i] != receivers(
                subs,
                e,
            )[j],
    decreases subs.len(),
{
    let out = receivers(subs, e);
    if subs.len() > 0 {
        let rest = subs.drop_last();
        assert forall|i: int, j: int| 0 <= i < j < rest.len() implies (#[trigger] rest[i]).id != (
        #[trigger] rest[j]).id by {
            assert(rest[i] == subs[i] && rest[j] == subs[j]);
        }
        lemma_receivers_once(rest, e);
        lemma_receivers_are_open(rest, e);
        let prev = receivers(rest, e);
        assert forall|i: int, j: int| 0 <= i < j < out.len() implies out[i] != out[j] by {
            if j < prev.len() {
                assert(out[i] == prev[i] && out[j] == prev[j]);
            } else {
                assert(out[i] == prev[i]);
                assert(is_open(rest, prev[i]));
                let k = choose|k: int| 0 <= k < rest.len() && (#[trigger] rest[k]).id == prev[i];
                assert(subs[k] == rest[k]);
                assert(subs[k].id != subs[subs.len() - 1].id);
            }
        }
    }
}

/// The recheck keeps the ids apart.
pub proof fn lemma_rechecked_distinct(filters: Seq<FilterV>, events: Seq<EventV>)
    requires
        distinct_ids(events),
    ensures
        distinct_ids(rechecked(filters, events)),
    decreases events.len(),
{
    let out = rechecked(filters, events);
    if events.len() > 0 {
        let rest = events.drop_last();
        assert forall|i: int, j: int| 0 <= i < j < rest.len() implies (#[trigger] rest[i]).id != (
        #[trigger] rest[j]).id by {
            assert(rest[i] == events[i] && rest[j] == events[j]);
        }
        lemma_rechecked_distinct(filters, rest);
        lemma_rechecked(filters, rest);
        let prev = rechecked(filters, rest);
        assert forall|i: int, j: int| 0 <= i < j < out.len() implies (#[trigger] out[i]).id != (
        #[trigger] out[j]).id by {
            if j < prev.len() {
                assert(out[i] == prev[i] && out[j] == prev[j]);
            } else {
                assert(out[i] == prev[i]);
                let m = choose|m: int| 0 <= m < rest.len() && rest[m] == prev[i];
                assert(events[m] == prev[i]);
                assert(events[events.len() - 1] == out[j]);
            }
        }
    }
}

/// A historical read sends no event twice: where no two stored events share
/// an id, no id occurs twice among the events that go out.
pub proof fn lemma_historical_read_once(rows: Seq<StoredEventV>, filters: Seq<FilterV>, now: i64)
    requires
        unique_ids(rows),
    ensures
        distinct_ids(rechecked(filters, selected(rows, lowered(filters), now))),
{
    lemma_selected_distinct(rows, lowered(filters), now);
    lemma_rechecked_distinct(filters, selected(rows, lowered(filters), now));
}

/// A historical read sends the newest: a stored event that has not expired
/// and that the first filter matches is, where it does not go out, no newer
/// than any event that does.
pub proof fn lemma_historical_read_newest(
    rows: Seq<StoredEventV>,
    filters: Seq<FilterV>,
    now: i64,
    i: int,
)
    requires
        filters.len() > 0,
        0 <= i < rows.len(),
        live(rows[i], now),
        filter_matches(filters[0], rows[i].event),
        !rechecked(filters, selected(rows, lowered(filters), now)).contains(rows[i].event),
    ensures
        forall|k: int|
            0 <= k < rechecked(filters, selected(rows, lowered(filters), now)).len() ==> (
            #[trigger] rechecked(filters, selected(rows, lowered(filters), now))[k]).created_at
                >= rows[i].event.created_at,
{
    let sel = lowered(filters);
    let x = rows[i].event;
    let read = selected(rows, sel, now);
    let out = rechecked(filters, read);
    lemma_candidates(rows, sel, now);
    assert(candidates(rows, sel, now).contains(x));
    assert(any_matches(filters, x));
    if read.contains(x) {
        lemma_rechecked_keeps(filters, read, x);
    }
    lemma_selected_newest(rows, sel, now, x);
    lemma_rechecked(filters, read);
    assert forall|k: int| 0 <= k < out.len() implies (#[trigger] out[k]).created_at
        >= x.created_at by {
        let m = choose|m: int| 0 <= m < read.len() && read[m] == out[k];
        assert(read[m].created_at >= x.created_at);
    }
}

/// A historical read with a limit returns no more events than the limit and
/// the cap, each matched by one of the filters, from newest to oldest.
pub proof fn lemma_historical_read(
    rows: Seq<StoredEventV>,
    filters: Seq<FilterV>,
    now: i64,
)
    ensures
        ({
            let sent = rechecked(filters, selected(rows, lowered(filters), now));
            &&& sent.len() <= MAX_LIMIT
            &&& filters.len() > 0 ==> (filters[0].limit matches Some(l) ==> sent.len() <= l)
            &&& forall|k: int| 0 <= k < sent.len() ==> any_matches(filters, #[trigger] sent[k])
            &&& newest_first(sent)
        }),
{
    lemma_selected(rows, lowered(filters), now);
    lemma_rechecked(filters, selected(rows, lowered(filters), now));
}

/// The events that one of the filters matches, in their order.
pub fn recheck(filters: &Vec<Filter>, events: &Vec<Event>) -> (r: Vec<Event>)
    ensures
        event_views(r@) == rechecked(filter_views(filters@), event_views(events@)),
{
    let ghost all = event_views(events@);
    let mut r: Vec<Event> = Vec::new();
    let mut i: usize = 0;
    assert(all.take(0) =~= Seq::empty());
    assert(event_views(r@) =~= Seq::empty());
    while i < events.len()
        invariant
            i <= events.len(),
            all == event_views(events@),
            event_views(r@) == rechecked(filter_views(filters@), all.take(i as int)),
        decreases events.len() - i,
    {
        let ghost before = event_views(r@);
        let ghost upto = all.take(i + 1);
        assert(upto.drop_last() =~= all.take(i as int));
        assert(upto.last() == events@[i as int]@);
        if matches_any(filters, &events[i]) {
            r.push(events[i].clone());
            assert(event_views(r@) =~= before.push(events@[i as int]@));
        }
        i += 1;
    }
    assert(all.take(i as int) =~= all);
    r
}

/// The answer to a subscription from the events that the store returned.
pub fn answer(sub_id: &str, filters: &Vec<Filter>, rows: &Vec<Event>) -> (r: Vec<RelayMessage>)
    ensures
        message_views(r@) == answered(
            sub_id@,
            filter_views(filters@),
            event_views(rows@),
        ),
{
    let events = recheck(filters, rows);
    let mut r: Vec<RelayMessage> = Vec::new();
    let mut i: usize = 0;
    while i < events.len()
        invariant
            i <= events.len(),
            r.len() == i,
            forall|k: int|
                0 <= k < i ==> r@[k]@ == (RelayMessageV::Event {
                    sub_id: sub_id@,
                    event: events@[k]@,
                }),
        decreases events.len() - i,
    {
        r.push(RelayMessage::Event { sub_id: sub_id.to_owned(), event: events[i].clone() });
        i += 1;
    }
    r.push(RelayMessage::Eose(sub_id.to_owned()));
    assert(message_views(r@) =~= answered(
        sub_id@,
        filter_views(filters@),
        event_views(rows@),
    ));
    r
}

/// The rows that the protocol library's decoder accepts, as it reads them.
pub fn read_rows(rows: &Vec<Event>) -> (r: Vec<Event>)
    ensures
        event_views(r@) == readable(event_views(rows@)),
{
    let ghost all = event_views(rows@);
    let mut r: Vec<Event> = Vec::new();
    let mut i: usize = 0;
    assert(all.take(0) =~= Seq::empty());
    assert(event_views(r@) =~= Seq::empty());
    while i < rows.len()
        invariant
            i <= rows.len(),
            all == event_views(rows@),
            event_views(r@) == readable(all.take(i as int)),
        decreases rows.len() - i,
    {
        let ghost before = event_views(r@);
        let ghost upto = all.take(i + 1);
        assert(upto.drop_last() =~= all.take(i as int));
        assert(upto.last() == rows@[i as int]@);
        match rows[i].restore() {
            Some(e) => {
                r.push(e);
                assert(event_views(r@) =~= before.push(e@));
            },
            None => {},
        }
        i += 1;
    }
    assert(all.take(i as int) =~= all);
    r
}

/// The answer to a subscription from the rows of the database: each row is
/// first read by the protocol library's decoder, and left out where the
/// decoder refuses it.
pub fn backfill(sub_id: &str, filters: &Vec<Filter>, rows: &Vec<Event>) -> (r: Vec<RelayMessage>)
    ensures
        message_views(r@) == answered(
            sub_id@,
            filter_views(filters@),
            readable(event_views(rows@)),
        ),
{
    let events = read_rows(rows);
    answer(sub_id, filters, &events)
}

/// The notice sent where the store fails to answer a subscription.
pub fn query_failed(error: &str) -> (r: RelayMessage)
    ensures
        r@ == RelayMessageV::Notice("Failed to query events: "@ + error@),
{
    RelayMessage::Notice(joined("Failed to query events: ", error))
}

/// The subscriptions of one connection, in the order in which they were
/// opened. No two have the same name.
pub struct Registry {
    subs: Vec<Subscription>,
}

impl View for Registry {
    type V = Seq<SubscriptionV>;

    closed spec fn view(&self) -> Seq<SubscriptionV> {
        subscription_views(self.subs@)
    }
}

impl Registry {
    /// No two subscriptions have the same name.
    pub open spec fn wf(&self) -> bool {
        unique_names(self@)
    }

    /// The registry of a new connection.
    pub fn new() -> (r: Registry)
        ensures
            r@ == Seq::<SubscriptionV>::empty(),
            r.wf(),
    {
        let r = Registry { subs: Vec::new() };
        assert(r@ =~= Seq::<SubscriptionV>::empty());
        r
    }

    /// The number of open subscriptions.
    pub fn len(&self) -> (r: usize)
        ensures
            r == self@.len(),
    {
        self.subs.len()
    }

    /// Closes the subscription of a name; says whether there was one.
    pub fn close(&mut self, id: &str) -> (r: bool)
        ensures
            final(self)@ == closed(old(self)@, id@),
            r == is_open(old(self)@, id@),
            old(self).wf() ==> final(self).wf(),
    {
        proof {
            lemma_closed(self@, id@);
        }
        let ghost all = self@;
        let ghost mut seen: int = 0;
        let mut found = false;
        let mut i: usize = 0;
        assert(all.take(0) =~= Seq::empty());
        assert(self@ =~= closed(all.take(0), id@) + all.skip(0));
        while i < self.subs.len()
            invariant
                0 <= seen <= all.len(),
                i == closed(all.take(seen), id@).len(),
                self@ == closed(all.take(seen), id@) + all.skip(seen),
                i <= self.subs.len(),
                found == exists|k: int| 0 <= k < seen && (#[trigger] all[k]).id == id@,
            decreases all.len() - seen,
        {
            let ghost so_far = closed(all.take(seen), id@);
            let ghost upto = all.take(seen + 1);
            assert(self@[i as int] == all.skip(seen)[0]);
            assert(seen < all.len());
            assert(upto.drop_last() =~= all.take(seen));
            assert(upto.last() == all[seen]);
            assert(self@[i as int] == self.subs@[i as int]@);
            if str_eq(self.subs[i].id.as_str(), id) {
                let ghost before = self.subs@;
                self.subs.remove(i);
                assert(self@ =~= so_far + all.skip(seen + 1)) by {
                    let was = subscription_views(before);
                    let now_is = so_far + all.skip(seen + 1);
                    assert(was == so_far + all.skip(seen));
                    assert(self.subs@ == before.remove(i as int));
                    assert(self@.len() == was.len() - 1);
                    assert(now_is.len() == was.len() - 1);
                    assert forall|k: int| 0 <= k < self@.len() implies self@[k] == now_is[k] by {
                        if k < i {
                            assert(self.subs@[k] == before[k]);
                            assert(was[k] == before[k]@);
                            assert(was[k] == so_far[k]);
                        } else {
                            assert(self.subs@[k] == before[k + 1]);
                            assert(was[k + 1] == before[k + 1]@);
                            assert(was[k + 1] == all.skip(seen)[k + 1 - i]);
                            assert(now_is[k] == all.skip(seen + 1)[k - i]);
                        }
                    }
                }
                assert(all[seen].id == id@);
                found = true;
            } else {
                assert(self@ =~= so_far.push(all[seen]) + all.skip(seen + 1));
                i += 1;
            }
            proof {
                seen = seen + 1;
            }
        }
        proof {
            assert(self@.len() == i + (all.len() - seen));
            assert(all.take(seen) =~= all);
            assert(self@ =~= closed(all, id@));
        }
        found
    }

    /// Opens a subscription; it takes the place of what had its name.
    pub fn open(&mut self, id: &str, filters: Vec<Filter>)
        ensures
            final(self)@ == opened(old(self)@, id@, filter_views(filters@)),
            old(self).wf() ==> final(self).wf(),
    {
        proof {
            lemma_opened(self@, id@, filter_views(filters@));
        }
        self.close(id);
        let ghost before = self@;
        let s = Subscription { id: id.to_owned(), filters };
        self.subs.push(s);
        assert(self@ =~= before.push(s@));
    }

    /// The names of the subscriptions that an event is for.
    pub fn receivers_of(&self, e: &Event) -> (r: Vec<String>)
        ensures
            r.deep_view() == receivers(self@, e@),
    {
        let ghost all = self@;
        let mut r: Vec<String> = Vec::new();
        let mut i: usize = 0;
        assert(all.take(0) =~= Seq::empty());
        assert(r.deep_view() =~= Seq::empty());
        while i < self.subs.len()
            invariant
                i <= self.subs.len(),
                all == self@,
                r.deep_view() == receivers(all.take(i as int), e@),
            decreases self.subs.len() - i,
        {
            let ghost before = r.deep_view();
            let ghost upto = all.take(i + 1);
            assert(upto.drop_last() =~= all.take(i as int));
            assert(upto.last() == self.subs@[i as int]@);
            if matches_any(&self.subs[i].filters, e) {
                r.push(self.subs[i].id.clone());
                assert(r.deep_view() =~= before.push(self.subs@[i as int]@.id));
            } else {
                assert(r.deep_view() =~= before);
            }
            i += 1;
        }
        assert(all.take(i as int) =~= all);
        r
    }

    /// The frames that carry a broadcast event to the subscriptions it is
    /// for: one frame for each, whatever the number of its filters that
    /// match.
    pub fn deliver(&self, e: &Event) -> (r: Vec<RelayMessage>)
        ensures
            message_views(r@) == deliveries(receivers(self@, e@), e@),
    {
        let names = self.receivers_of(e);
        let mut r: Vec<RelayMessage> = Vec::new();
        let mut i: usize = 0;
        while i < names.len()
            invariant
                i <= names.len(),
                r.len() == i,
                forall|k: int|
                    0 <= k < i ==> r@[k]@ == (RelayMessageV::Event {
                        sub_id: names@[k]@,
                        event: e@,
                    }),
            decreases names.len() - i,
        {
            r.push(RelayMessage::Event { sub_id: names[i].clone(), event: e.clone() });
            i += 1;
        }
        assert(message_views(r@) =~= deliveries(names.deep_view(), e@));
        r
    }
}

} // verus!
