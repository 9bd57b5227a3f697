//! Recent events in the cache: keys, ranks, and reading back.

use crate::event::{text_event, Event, EventV};
use crate::filter::{filter_matches, Filter, FilterV};
use crate::store::event_views;
use crate::strict::{normalize_event, strict_event};
use crate::text::joined;
use vstd::prelude::*;

verus! {

/// The seconds for which the cache keeps an event under its own key.
pub const EVENT_TTL: u64 = 600;

/// The most events that the cache keeps in its list of recent events.
pub const MAX_CACHED_EVENTS: i64 = 1000;

/// The key of the list of recent events, ordered by their time.
pub open spec fn recent_key_of() -> Seq<char> {
    "relay:recent_events"@
}

/// The key under which the cache keeps one event.
pub open spec fn event_key_of(id: Seq<char>) -> Seq<char> {
    "event:"@ + id
}

/// The event that a cached text holds: what the protocol library's decoder
/// reads from it, if it accepts the text.
pub open spec fn cached_event(text: Seq<char>) -> Option<EventV> {
    match strict_event(text) {
        Some(normal) => text_event(normal),
        None => None,
    }
}

/// The events among the cached texts that a filter matches, in the order of
/// the texts.
pub open spec fn cached_matches(f: FilterV, texts: Seq<Seq<char>>) -> Seq<EventV>
    decreases texts.len(),
{
    if texts.len() == 0 {
        Seq::empty()
    } else {
        match cached_event(texts.last()) {
            Some(e) => if filter_matches(f, e) {
                cached_matches(f, texts.drop_last()).push(e)
            } else {
                cached_matches(f, texts.drop_last())
            },
            None => cached_matches(f, texts.drop_last()),
        }
    }
}

/// The key of the list of recent events.
pub fn recent_key() -> (r: String)
    ensures
        r@ == recent_key_of(),
{
    String::from_str("relay:recent_events")
}

/// The key under which the cache keeps one event.
pub fn event_key(id: &str) -> (r: String)
    ensures
        r@ == event_key_of(id@),
{
    joined("event:", id)
}

/// The last rank to trim from the list of recent events, counted from its
/// newest end, so that the newest [`MAX_CACHED_EVENTS`] stay.
pub fn trim_stop() -> (r: i64)
    ensures
        r == -(MAX_CACHED_EVENTS + 1),
{
    -(MAX_CACHED_EVENTS + 1)
}

/// The last rank to read for the newest `limit` events; ranks start at zero.
pub fn read_stop(limit: u64) -> (r: i64)
    ensures
        r == if limit > i64::MAX {
            i64::MAX as int
        } else {
            limit - 1
        },
{
    if limit > 9223372036854775807 {
        i64::MAX
    } else {
        (limit as i64) - 1
    }
}

/// Reads an event from a cached text.
pub fn read_cached(text: &str) -> (r: Option<Event>)
    ensures
        r.is_some() == cached_event(text@).is_some(),
        r matches Some(e) ==> Some(e@) == cached_event(text@),
{
    match normalize_event(text) {
        Some(normal) => Event::from_text(normal.as_str()),
        None => None,
    }
}

/// The events among the cached texts that a filter matches.
pub fn matching_cached(f: &Filter, texts: &Vec<String>) -> (r: Vec<Event>)
    ensures
        event_views(r@) == cached_matches(f@, texts.deep_view()),
{
    let ghost all = texts.deep_view();
    let mut r: Vec<Event> = Vec::new();
    let mut i: usize = 0;
    assert(all.take(0) =~= Seq::empty());
    assert(event_views(r@) =~= Seq::empty());
    while i < texts.len()
        invariant
            i <= texts.len(),
            all == texts.deep_view(),
            event_views(r@) == cached_matches(f@, all.take(i as int)),
        decreases texts.len() - i,
    {
        let ghost before = event_views(r@);
        let ghost upto = all.take(i + 1);
        assert(upto.drop_last() =~= all.take(i as int));
        assert(upto.last() == texts@[i as int]@);
        match read_cached(texts[i].as_str()) {
            Some(e) => {
                if f.matches(&e) {
                    r.push(e);
                    assert(event_views(r@) =~= before.push(e@));
                }
            },
            None => {},
        }
        i += 1;
    }
    assert(all.take(i as int) =~= all);
    r
}

} // verus!
