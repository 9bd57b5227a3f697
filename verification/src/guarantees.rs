//! What holds of the relay in every state, proved on the backend in
//! memory.

use crate::event::{addressable, d_tag, event_text, EventV};
use crate::ingest::{
    aftermath_ops, applied, applied_all, deletions, ingested, persistence_ops, BackendV, StoreOpV,
    KIND_DELETION, KIND_VANISH,
};
use crate::filter::{any_matches, filter_matches, FilterV};
use crate::query::lowered;
use crate::store::{
    as_new, candidates, hit, holds_id, inserted, lemma_candidates, lemma_inserted_unique,
    lemma_selected_holds, lemma_without_members, lemma_without_unique, live, selected,
    unique_ids, without, StoredEventV, TargetV,
};
use crate::subscription::{
    answered, deliveries, lemma_rechecked_keeps, lemma_subscriber_receives, rechecked, receivers,
    SubscriptionV,
};
use crate::connection::{received, ConnectionV, StepV};
use crate::frame::{classified, no_shape, InboundV};
use crate::json::{parsed, JsonV};
use crate::message::RelayMessageV;
use crate::relay::{served, ServedV};
use crate::rpc::request_of;
use crate::strict::signature_fault;
use crate::users::{found, lemma_with_status};
use crate::whitelist::WhitelistStatus;
use vstd::prelude::*;

verus! {

/// Every stored event passes the check of id and signature.
pub open spec fn all_verified(rows: Seq<StoredEventV>) -> bool {
    forall|i: int|
        0 <= i < rows.len() ==> signature_fault(event_text((#[trigger] rows[i]).event)).is_none()
}

/// Whether an operation leaves the store verified: it inserts no event that
/// fails the check.
pub open spec fn op_verified(op: StoreOpV) -> bool {
    op matches StoreOpV::Insert { event, .. } ==> signature_fault(event_text(event)).is_none()
}

proof fn lemma_applied_keeps(s: BackendV, op: StoreOpV)
    requires
        unique_ids(s.events),
        all_verified(s.events),
        op_verified(op),
    ensures
        unique_ids(applied(s, op).events),
        all_verified(applied(s, op).events),
{
    match op {
        StoreOpV::Delete(t) => {
            lemma_without_unique(s.events, t);
            lemma_without_members(s.events, t);
            let out = without(s.events, t);
            assert forall|i: int| 0 <= i < out.len() implies signature_fault(
                event_text((#[trigger] out[i]).event),
            ).is_none() by {
                assert(out.contains(out[i]));
                let k = choose|k: int| 0 <= k < s.events.len() && s.events[k] == out[i];
                assert(signature_fault(event_text(s.events[k].event)).is_none());
            }
        },
        StoreOpV::Insert { event, expires_at, received_at } => {
            let row = StoredEventV { event, expires_at, received_at };
            lemma_inserted_unique(s.events, row);
            let out = inserted(s.events, row);
            assert forall|i: int| 0 <= i < out.len() implies signature_fault(
                event_text((#[trigger] out[i]).event),
            ).is_none() by {
                if i < s.events.len() {
                    assert(out[i] == s.events[i]);
                }
            }
        },
        _ => {},
    }
}

proof fn lemma_applied_all_keeps(s: BackendV, ops: Seq<StoreOpV>)
    requires
        unique_ids(s.events),
        all_verified(s.events),
        forall|i: int| 0 <= i < ops.len() ==> op_verified(#[trigger] ops[i]),
    ensures
        unique_ids(applied_all(s, ops).events),
        all_verified(applied_all(s, ops).events),
    decreases ops.len(),
{
    if ops.len() > 0 {
        let rest = ops.drop_last();
        assert forall|i: int| 0 <= i < rest.len() implies op_verified(#[trigger] rest[i]) by {
            assert(rest[i] == ops[i]);
        }
        lemma_applied_all_keeps(s, rest);
        lemma_applied_keeps(applied_all(s, rest), ops.last());
    }
}

/// Ingestion keeps the store sound: where no two stored events shared an id
/// and each passed the check of id and signature, the same holds afterwards.
pub proof fn lemma_store_stays_sound(s: BackendV, e: EventV, now: i64)
    requires
        unique_ids(s.events),
        all_verified(s.events),
    ensures
        unique_ids(ingested(s, e, signature_fault(event_text(e)), now).state.events),
        all_verified(ingested(s, e, signature_fault(event_text(e)), now).state.events),
{
    let fault = signature_fault(event_text(e));
    let out = ingested(s, e, fault, now);
    if out.broadcast {
        let expires_at = crate::ingest::screened(e, fault, now)->Ok_0;
        let asked = BackendV {
            cache: crate::cache::refreshed(s.cache, s.users, e.pubkey, now),
            ..s
        };
        let p = persistence_ops(e, expires_at, now);
        let a = aftermath_ops(e);
        assert forall|i: int| 0 <= i < p.len() implies op_verified(#[trigger] p[i]) by {}
        assert forall|i: int| 0 <= i < a.len() implies op_verified(#[trigger] a[i]) by {}
        lemma_applied_all_keeps(asked, p);
        lemma_applied_all_keeps(applied_all(asked, p), a);
    }
}

proof fn lemma_applied_one(s: BackendV, a: StoreOpV)
    ensures
        applied_all(s, seq![a]) == applied(s, a),
{
    assert(seq![a].drop_last() =~= Seq::<StoreOpV>::empty());
    assert(applied_all(s, Seq::<StoreOpV>::empty()) == s);
    assert(applied_all(s, seq![a]) == applied(applied_all(s, seq![a].drop_last()), seq![a].last()));
}

proof fn lemma_applied_two(s: BackendV, a: StoreOpV, b: StoreOpV)
    ensures
        applied_all(s, seq![a, b]) == applied(applied(s, a), b),
{
    assert(seq![a, b].drop_last() =~= seq![a]);
    lemma_applied_one(s, a);
}

proof fn lemma_applied_three(s: BackendV, a: StoreOpV, b: StoreOpV, c: StoreOpV)
    ensures
        applied_all(s, seq![a, b, c]) == applied(applied(applied(s, a), b), c),
{
    assert(seq![a, b, c].drop_last() =~= seq![a, b]);
    lemma_applied_two(s, a, b);
}

/// The triple by which an addressable event is replaced.
pub open spec fn address_of(e: EventV) -> TargetV {
    TargetV::Addressable { pubkey: e.pubkey, kind: e.kind, d_tag: d_tag(e.tags) }
}

/// Whatever the store held: after an addressable event is accepted, at most
/// one event of its author, kind and discriminator is stored, that one is
/// the event itself, and the events of every other address are stored as
/// they were.
pub proof fn lemma_addressable_replaces(
    s: BackendV,
    e: EventV,
    fault: Option<Seq<char>>,
    now: i64,
)
    requires
        addressable(e.kind),
        ingested(s, e, fault, now).broadcast,
    ensures
        ({
            let after = ingested(s, e, fault, now).state.events;
            &&& forall|j: int|
                0 <= j < after.len() && hit(address_of(e), (#[trigger] after[j]).event)
                    ==> after[j].event == e && j == after.len() - 1
            &&& forall|r: StoredEventV|
                !hit(address_of(e), r.event) ==> (#[trigger] after.contains(r)
                    <==> s.events.contains(r))
        }),
{
    broadcast use vstd::seq_lib::lemma_seq_contains_after_push;

    let expires_at = crate::ingest::screened(e, fault, now)->Ok_0;
    let asked = BackendV { cache: crate::cache::refreshed(s.cache, s.users, e.pubkey, now), ..s };
    let t = address_of(e);
    let row = StoredEventV { event: e, expires_at, received_at: now };
    lemma_applied_two(
        asked,
        StoreOpV::Delete(t),
        StoreOpV::Insert { event: e, expires_at, received_at: now },
    );
    assert(aftermath_ops(e) =~= Seq::<StoreOpV>::empty());
    let cleared = without(s.events, t);
    lemma_without_members(s.events, t);
    let after = ingested(s, e, fault, now).state.events;
    assert(after == inserted(cleared, row));
    assert forall|j: int|
        0 <= j < after.len() && hit(t, (#[trigger] after[j]).event) implies after[j].event == e
        && j == after.len() - 1 by {
        if j < cleared.len() {
            assert(after[j] == cleared[j]);
            assert(cleared.contains(cleared[j]));
        }
    }
    assert(hit(t, row.event));
}

/// After an addressable event is accepted, the store holds exactly one event
/// of its author, kind and discriminator: the event itself. This is stated
/// for a store in which the id of the event is held, if at all, by a version
/// of the same addressable event.
pub proof fn lemma_addressable_is_single(
    s: BackendV,
    e: EventV,
    fault: Option<Seq<char>>,
    now: i64,
)
    requires
        addressable(e.kind),
        ingested(s, e, fault, now).broadcast,
        forall|i: int|
            0 <= i < s.events.len() && (#[trigger] s.events[i]).event.id == e.id ==> hit(
                address_of(e),
                s.events[i].event,
            ),
    ensures
        ({
            let after = ingested(s, e, fault, now).state.events;
            exists|k: int|
                0 <= k < after.len() && (#[trigger] after[k]).event == e && forall|j: int|
                    0 <= j < after.len() && j != k ==> !hit(
                        address_of(e),
                        (#[trigger] after[j]).event,
                    )
        }),
{
    let expires_at = crate::ingest::screened(e, fault, now)->Ok_0;
    let asked = BackendV { cache: crate::cache::refreshed(s.cache, s.users, e.pubkey, now), ..s };
    let t = address_of(e);
    let row = StoredEventV { event: e, expires_at, received_at: now };
    lemma_applied_two(
        asked,
        StoreOpV::Delete(t),
        StoreOpV::Insert { event: e, expires_at, received_at: now },
    );
    assert(aftermath_ops(e) =~= Seq::<StoreOpV>::empty());
    let cleared = without(s.events, t);
    lemma_without_members(s.events, t);
    assert(!holds_id(cleared, e.id)) by {
        if holds_id(cleared, e.id) {
            let i = choose|i: int|
                0 <= i < cleared.len() && (#[trigger] cleared[i]).event.id == e.id;
            assert(cleared.contains(cleared[i]));
            let k = choose|k: int| 0 <= k < s.events.len() && s.events[k] == cleared[i];
            assert(hit(t, s.events[k].event));
        }
    }
    let after = ingested(s, e, fault, now).state.events;
    assert(after == cleared.push(row));
    let k = cleared.len() as int;
    assert(after[k].event == e);
    assert forall|j: int| 0 <= j < after.len() && j != k implies !hit(
        t,
        (#[trigger] after[j]).event,
    ) by {
        assert(after[j] == cleared[j]);
        assert(cleared.contains(cleared[j]));
    }
}

/// After a request to vanish is accepted, no event of its author remains,
/// the cached answer for the author is gone, and the author's row, where
/// there is one, says vanished.
pub proof fn lemma_vanish_leaves_nothing(
    s: BackendV,
    e: EventV,
    fault: Option<Seq<char>>,
    now: i64,
)
    requires
        e.kind == KIND_VANISH,
        ingested(s, e, fault, now).broadcast,
    ensures
        ({
            let after = ingested(s, e, fault, now).state;
            &&& forall|i: int|
                0 <= i < after.events.len() ==> (#[trigger] after.events[i]).event.pubkey
                    != e.pubkey
            &&& found(after.users, e.pubkey).is_some() == found(s.users, e.pubkey).is_some()
            &&& found(after.users, e.pubkey) matches Some(u) ==> u.status
                == WhitelistStatus::Vanished
            &&& crate::cache::held(after.cache, crate::whitelist::cache_key_of(e.pubkey), now)
                .is_none()
        }),
{
    let expires_at = crate::ingest::screened(e, fault, now)->Ok_0;
    let asked = BackendV { cache: crate::cache::refreshed(s.cache, s.users, e.pubkey, now), ..s };
    let t = TargetV::Author { pubkey: e.pubkey };
    lemma_applied_one(asked, StoreOpV::Insert { event: e, expires_at, received_at: now });
    let persisted = applied_all(asked, persistence_ops(e, expires_at, now));
    lemma_applied_three(
        persisted,
        StoreOpV::Delete(t),
        StoreOpV::MarkVanished { pubkey: e.pubkey },
        StoreOpV::Invalidate { pubkey: e.pubkey },
    );
    let after = ingested(s, e, fault, now).state;
    lemma_without_members(persisted.events, t);
    assert forall|i: int| 0 <= i < after.events.len() implies (
    #[trigger] after.events[i]).event.pubkey != e.pubkey by {
        assert(after.events.contains(after.events[i]));
    }
    lemma_with_status(s.users, e.pubkey, WhitelistStatus::Vanished);
    crate::cache::lemma_dropped_holds_nothing(
        asked.cache,
        crate::whitelist::cache_key_of(e.pubkey),
        now,
    );
}

proof fn lemma_deletions_spare_others(s: BackendV, ids: Seq<Seq<char>>, pubkey: Seq<char>)
    ensures
        forall|r: StoredEventV|
            s.events.contains(r) && r.event.pubkey != pubkey ==> #[trigger] applied_all(
                s,
                deletions(ids, pubkey),
            ).events.contains(r),
        applied_all(s, deletions(ids, pubkey)).users == s.users,
    decreases ids.len(),
{
    let ops = deletions(ids, pubkey);
    if ids.len() > 0 {
        let rest = ids.drop_last();
        assert(ops.drop_last() =~= deletions(rest, pubkey));
        lemma_deletions_spare_others(s, rest, pubkey);
        let mid = applied_all(s, deletions(rest, pubkey));
        let t = TargetV::Owned { event_id: ids.last(), pubkey };
        assert(ops.last() == StoreOpV::Delete(t));
        lemma_without_members(mid.events, t);
    }
}

/// A deletion event touches no event of another author: whatever ids it
/// names, every event that another author had stored is stored afterwards.
pub proof fn lemma_deletion_spares_others(
    s: BackendV,
    e: EventV,
    fault: Option<Seq<char>>,
    now: i64,
    other: StoredEventV,
)
    requires
        e.kind == KIND_DELETION,
        s.events.contains(other),
        other.event.pubkey != e.pubkey,
    ensures
        ingested(s, e, fault, now).state.events.contains(other),
{
    broadcast use vstd::seq_lib::lemma_seq_contains_after_push;

    if ingested(s, e, fault, now).broadcast {
        let expires_at = crate::ingest::screened(e, fault, now)->Ok_0;
        let asked = BackendV {
            cache: crate::cache::refreshed(s.cache, s.users, e.pubkey, now),
            ..s
        };
        lemma_applied_one(asked, StoreOpV::Insert { event: e, expires_at, received_at: now });
        let persisted = applied_all(asked, persistence_ops(e, expires_at, now));
        assert(persisted.events.contains(other));
        lemma_deletions_spare_others(
            persisted,
            crate::event::tag_values(e.tags, "e"@),
            e.pubkey,
        );
    }
}

/// An accepted event whose id was free, and whose kind neither deletes nor
/// vanishes, is in the store afterwards.
pub proof fn lemma_accepted_is_stored(s: BackendV, e: EventV, fault: Option<Seq<char>>, now: i64)
    requires
        ingested(s, e, fault, now).broadcast,
        e.kind != KIND_DELETION,
        e.kind != KIND_VANISH,
        !holds_id(s.events, e.id),
    ensures
        exists|i: int|
            0 <= i < ingested(s, e, fault, now).state.events.len() && (#[trigger] ingested(
                s,
                e,
                fault,
                now,
            ).state.events[i]).event == e,
{
    let expires_at = crate::ingest::screened(e, fault, now)->Ok_0;
    let asked = BackendV { cache: crate::cache::refreshed(s.cache, s.users, e.pubkey, now), ..s };
    let row = StoredEventV { event: e, expires_at, received_at: now };
    assert(aftermath_ops(e) =~= Seq::<StoreOpV>::empty());
    let after = ingested(s, e, fault, now).state.events;
    if addressable(e.kind) {
        let t = address_of(e);
        lemma_applied_two(
            asked,
            StoreOpV::Delete(t),
            StoreOpV::Insert { event: e, expires_at, received_at: now },
        );
        let cleared = without(s.events, t);
        lemma_without_members(s.events, t);
        assert(!holds_id(cleared, e.id)) by {
            if holds_id(cleared, e.id) {
                let i = choose|i: int|
                    0 <= i < cleared.len() && (#[trigger] cleared[i]).event.id == e.id;
                assert(cleared.contains(cleared[i]));
                let k = choose|k: int| 0 <= k < s.events.len() && s.events[k] == cleared[i];
                assert(s.events[k].event.id == e.id);
            }
        }
        assert(after == cleared.push(row));
        assert(after[cleared.len() as int].event == e);
    } else {
        lemma_applied_one(asked, StoreOpV::Insert { event: e, expires_at, received_at: now });
        assert(after == s.events.push(row));
        assert(after[s.events.len() as int].event == e);
    }
}

/// An event that is broadcast reaches a connection that has subscribed to
/// it: where one filter of an open subscription matches the event, a frame
/// with the event goes out under the name of that subscription.
pub proof fn lemma_broadcast_reaches_subscriber(subs: Seq<SubscriptionV>, e: EventV, k: int)
    requires
        0 <= k < subs.len(),
        any_matches(subs[k].filters, e),
    ensures
        deliveries(receivers(subs, e), e).contains(
            RelayMessageV::Event { sub_id: subs[k].id, event: e },
        ),
{
    lemma_subscriber_receives(subs, e, k);
    let names = receivers(subs, e);
    let i = choose|i: int| 0 <= i < names.len() && names[i] == subs[k].id;
    assert(deliveries(names, e)[i] == RelayMessageV::Event { sub_id: subs[k].id, event: e });
}

/// A stored event reaches a connection that subscribes later: where the
/// event has not expired, the first filter matches it, and the candidates
/// that are at least as new as the event, itself among them, fit the limit
/// of the read, the answer to the subscription carries the event before its
/// end marker.
pub proof fn lemma_stored_reaches_subscriber(
    rows: Seq<StoredEventV>,
    sub_id: Seq<char>,
    filters: Seq<FilterV>,
    now: i64,
    i: int,
)
    requires
        filters.len() > 0,
        0 <= i < rows.len(),
        live(rows[i], now),
        filter_matches(filters[0], rows[i].event),
        as_new(candidates(rows, lowered(filters), now), rows[i].event.created_at) <= lowered(
            filters,
        ).limit,
    ensures
        ({
            let frames = answered(sub_id, filters, selected(rows, lowered(filters), now));
            &&& frames.last() == RelayMessageV::Eose(sub_id)
            &&& exists|k: int|
                0 <= k < frames.len() - 1 && #[trigger] frames[k] == (RelayMessageV::Event {
                    sub_id,
                    event: rows[i].event,
                })
        }),
{
    let sel = lowered(filters);
    let e = rows[i].event;
    let c = candidates(rows, sel, now);
    lemma_candidates(rows, sel, now);
    assert(c.contains(e));
    lemma_selected_holds(rows, sel, now, e);
    let read = selected(rows, sel, now);
    assert(any_matches(filters, e));
    lemma_rechecked_keeps(filters, read, e);
    let sent = rechecked(filters, read);
    let k = choose|k: int| 0 <= k < sent.len() && sent[k] == e;
    let frames = answered(sub_id, filters, read);
    assert(frames[k] == RelayMessageV::Event { sub_id, event: e });
}

/// A frame that is invalid is answered by one notice, which begins with
/// `Invalid message: ` and goes on with the reason, and changes nothing:
/// subscriptions, sessions, the authenticated key and the backend stay as
/// they were, and nothing is broadcast.
pub proof fn lemma_invalid_is_noticed(c: ConnectionV, s: BackendV, text: Seq<char>, now: i64)
    requires
        classified(text) is Invalid,
    ensures
        served(c, s, text, now) == (ServedV {
            connection: c,
            backend: s,
            replies: seq![
                RelayMessageV::Notice("Invalid message: "@ + classified(text)->Invalid_0),
            ],
            broadcast: None,
        }),
{
}

/// A parsed frame of no shape is invalid: JSON that is neither object nor
/// array, an empty array, and an object without an id or without a method
/// name.
pub proof fn lemma_no_shape_is_invalid(text: Seq<char>)
    requires
        parsed(text) matches Some(v) && match v {
            JsonV::Object(_) => request_of(v).is_none(),
            JsonV::Array(a) => a.len() == 0,
            _ => true,
        },
    ensures
        classified(text) == InboundV::Invalid(no_shape()),
{
}

/// Whatever a client sends, the store stays sound: where no two stored
/// events shared an id and each passed the check of id and signature, the
/// same holds after any frame has been served.
pub proof fn lemma_every_frame_keeps_store_sound(
    c: ConnectionV,
    s: BackendV,
    text: Seq<char>,
    now: i64,
)
    requires
        unique_ids(s.events),
        all_verified(s.events),
    ensures
        unique_ids(served(c, s, text, now).backend.events),
        all_verified(served(c, s, text, now).backend.events),
{
    let (after, step) = received(c, classified(text));
    match step {
        StepV::Ingest(e) => {
            lemma_store_stays_sound(s, e, now);
        },
        _ => {},
    }
}

} // verus!
