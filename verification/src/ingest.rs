//! Ingestion: verify, check expiration, authorize, replace, persist,
//! follow up, accept.

use crate::cache::{dropped, invalidate, lookup, looked_up, refreshed, Cache, CacheEntryV};
use crate::event::{
    addressable, d_tag, event_text, expiry_at, tag_values, Event, EventV, Expiry,
};
use crate::message::{RelayMessage, RelayMessageV};
use crate::store::{
    inserted, without, EventStore, StoredEventV, Target, TargetV,
};
use crate::strict::signature_fault;
use crate::text::joined;
use crate::users::{with_status, UserStore};
use crate::whitelist::{cache_key_of, is_permitted, permitted, Access, UserV, WhitelistStatus};
use vstd::prelude::*;

verus! {

/// The kind of an event that deletes events of its author.
pub const KIND_DELETION: u64 = 5;

/// The kind of an event by which its author asks to vanish.
pub const KIND_VANISH: u64 = 62;

/// One thing for the backend to do.
#[derive(Debug, PartialEq, Eq)]
#[allow(inconsistent_fields)]
pub enum StoreOp {
    /// Delete the events that the target is aimed at.
    Delete(Target),
    /// Insert the event, unless its id is taken.
    Insert { event: Event, expires_at: Option<i64>, received_at: i64 },
    /// Set the status of the user to vanished.
    MarkVanished { pubkey: String },
    /// Drop the cached answer for the user.
    Invalidate { pubkey: String },
}

/// The mathematical value of a [`StoreOp`].
#[allow(inconsistent_fields)]
pub enum StoreOpV {
    Delete(TargetV),
    Insert { event: EventV, expires_at: Option<i64>, received_at: i64 },
    MarkVanished { pubkey: Seq<char> },
    Invalidate { pubkey: Seq<char> },
}

impl View for StoreOp {
    type V = StoreOpV;

    open spec fn view(&self) -> StoreOpV {
        match self {
            StoreOp::Delete(t) => StoreOpV::Delete(t@),
            StoreOp::Insert { event, expires_at, received_at } => StoreOpV::Insert {
                event: event@,
                expires_at: *expires_at,
                received_at: *received_at,
            },
            StoreOp::MarkVanished { pubkey } => StoreOpV::MarkVanished { pubkey: pubkey@ },
            StoreOp::Invalidate { pubkey } => StoreOpV::Invalidate { pubkey: pubkey@ },
        }
    }
}

impl StoreOp {
    /// Whether the operation is the insertion, on which alone it hangs
    /// whether an event counts as persisted.
    pub fn is_insert(&self) -> (r: bool)
        ensures
            r == (self@ is Insert),
    {
        match self {
            StoreOp::Insert { .. } => true,
            _ => false,
        }
    }
}

/// The values of a list of operations.
pub open spec fn op_views(ops: Seq<StoreOp>) -> Seq<StoreOpV> {
    Seq::new(ops.len(), |i: int| ops[i]@)
}

/// The verdict that refuses an event.
pub open spec fn refusal(e: EventV, reason: Seq<char>) -> RelayMessageV {
    RelayMessageV::Ack { event_id: e.id, accepted: false, message: reason }
}

/// The verdict that accepts an event.
pub open spec fn acceptance(e: EventV) -> RelayMessageV {
    RelayMessageV::Ack { event_id: e.id, accepted: true, message: Seq::empty() }
}

/// What the first two steps make of an event, given the verdict on its
/// signature: refused for the signature, refused as expired, or let on with
/// the expiration to store.
pub open spec fn screened(e: EventV, fault: Option<Seq<char>>, now: i64) -> Result<
    Option<i64>,
    RelayMessageV,
> {
    match fault {
        Some(why) => Err(refusal(e, "Invalid signature: "@ + why)),
        None => match expiry_at(e.tags, now) {
            Expiry::Expired => Err(refusal(e, "error: event expired"@)),
            Expiry::Live(t) => Ok(t),
        },
    }
}

/// What the backend is to do to persist an event received at `now`: for an
/// addressable event first delete every version of it, then insert.
pub open spec fn persistence_ops(e: EventV, expires_at: Option<i64>, now: i64) -> Seq<StoreOpV> {
    if addressable(e.kind) {
        seq![
            StoreOpV::Delete(
                TargetV::Addressable { pubkey: e.pubkey, kind: e.kind, d_tag: d_tag(e.tags) },
            ),
            StoreOpV::Insert { event: e, expires_at, received_at: now },
        ]
    } else {
        seq![StoreOpV::Insert { event: e, expires_at, received_at: now }]
    }
}

/// The deletions that a deletion event asks for: one for each event that it
/// names, each bound to its author.
pub open spec fn deletions(ids: Seq<Seq<char>>, pubkey: Seq<char>) -> Seq<StoreOpV> {
    Seq::new(
        ids.len(),
        |i: int| StoreOpV::Delete(TargetV::Owned { event_id: ids[i], pubkey }),
    )
}

/// What the backend is to do once an event is persisted.
pub open spec fn aftermath_ops(e: EventV) -> Seq<StoreOpV> {
    if e.kind == KIND_DELETION {
        deletions(tag_values(e.tags, "e"@), e.pubkey)
    } else if e.kind == KIND_VANISH {
        seq![
            StoreOpV::Delete(TargetV::Author { pubkey: e.pubkey }),
            StoreOpV::MarkVanished { pubkey: e.pubkey },
            StoreOpV::Invalidate { pubkey: e.pubkey },
        ]
    } else {
        Seq::empty()
    }
}

/// The verdict sent once the backend has answered.
pub open spec fn verdict_for(e: EventV, persisted: bool) -> RelayMessageV {
    if persisted {
        acceptance(e)
    } else {
        refusal(e, "error: internal error"@)
    }
}

fn refuse(e: &Event, reason: String) -> (r: RelayMessage)
    ensures
        r@ == refusal(e@, reason@),
{
    RelayMessage::Ack { event_id: e.id.clone(), accepted: false, message: reason }
}

/// The first two steps on an event, given the verdict on its signature.
pub fn screen(e: &Event, fault: Option<String>, now: i64) -> (r: Result<Option<i64>, RelayMessage>)
    ensures
        match (r, screened(e@, crate::strict::text_option(fault), now)) {
            (Ok(t), Ok(u)) => t == u,
            (Err(m), Err(n)) => m@ == n,
            _ => false,
        },
{
    match fault {
        Some(why) => Err(refuse(e, joined("Invalid signature: ", why.as_str()))),
        None => match e.expiry(now) {
            Expiry::Expired => Err(refuse(e, String::from_str("error: event expired"))),
            Expiry::Live(t) => Ok(t),
        },
    }
}

/// The first two steps on an event: its signature is checked, then its
/// expiration tags are read against the clock.
pub fn precheck(e: &Event, now: i64) -> (r: Result<Option<i64>, RelayMessage>)
    ensures
        match (r, screened(e@, signature_fault(event_text(e@)), now)) {
            (Ok(t), Ok(u)) => t == u,
            (Err(m), Err(n)) => m@ == n,
            _ => false,
        },
{
    let fault = match e.verify() {
        Ok(()) => None,
        Err(why) => Some(why),
    };
    screen(e, fault, now)
}

/// The third step: `None` lets the author on, `Some` is the refusal.
pub fn gate(e: &Event, access: Access) -> (r: Option<RelayMessage>)
    ensures
        r.is_some() == !permitted(access),
        r matches Some(m) ==> m@ == refusal(e@, "blocked: user not whitelisted"@),
{
    if is_permitted(access) {
        None
    } else {
        Some(refuse(e, String::from_str("blocked: user not whitelisted")))
    }
}

/// What the backend is to do to persist an event received at `now`.
pub fn persistence(e: &Event, expires_at: Option<i64>, now: i64) -> (r: Vec<StoreOp>)
    ensures
        op_views(r@) == persistence_ops(e@, expires_at, now),
{
    let mut r: Vec<StoreOp> = Vec::new();
    if e.is_addressable() {
        r.push(
            StoreOp::Delete(
                Target::Addressable {
                    pubkey: e.pubkey.clone(),
                    kind: e.kind,
                    d_tag: e.d_tag_value(),
                },
            ),
        );
    }
    r.push(StoreOp::Insert { event: e.clone(), expires_at, received_at: now });
    assert(op_views(r@) =~= persistence_ops(e@, expires_at, now));
    r
}

/// What the backend is to do once an event is persisted.
pub fn aftermath(e: &Event) -> (r: Vec<StoreOp>)
    ensures
        op_views(r@) == aftermath_ops(e@),
{
    let mut r: Vec<StoreOp> = Vec::new();
    if e.kind == KIND_DELETION {
        let ids = e.values_of("e");
        let mut i: usize = 0;
        while i < ids.len()
            invariant
                i <= ids.len(),
                r.len() == i,
                forall|k: int|
                    0 <= k < i ==> r@[k]@ == StoreOpV::Delete(
                        TargetV::Owned { event_id: ids@[k]@, pubkey: e@.pubkey },
                    ),
            decreases ids.len() - i,
        {
            r.push(
                StoreOp::Delete(
                    Target::Owned { event_id: ids[i].clone(), pubkey: e.pubkey.clone() },
                ),
            );
            i += 1;
        }
        assert(op_views(r@) =~= deletions(ids.deep_view(), e@.pubkey));
    } else if e.kind == KIND_VANISH {
        r.push(StoreOp::Delete(Target::Author { pubkey: e.pubkey.clone() }));
        r.push(StoreOp::MarkVanished { pubkey: e.pubkey.clone() });
        r.push(StoreOp::Invalidate { pubkey: e.pubkey.clone() });
        assert(op_views(r@) =~= aftermath_ops(e@));
    } else {
        assert(op_views(r@) =~= aftermath_ops(e@));
    }
    r
}

/// The verdict sent once the backend has answered. An event that was
/// persisted is also broadcast.
pub fn verdict(e: &Event, persisted: bool) -> (r: RelayMessage)
    ensures
        r@ == verdict_for(e@, persisted),
{
    proof {
        reveal_strlit("");
        assert(""@ =~= Seq::<char>::empty());
    }
    if persisted {
        RelayMessage::Ack {
            event_id: e.id.clone(),
            accepted: true,
            message: String::from_str(""),
        }
    } else {
        refuse(e, String::from_str("error: internal error"))
    }
}

/// Whether an event still counts as persisted once one more operation of
/// its persistence has been tried: it does until the insertion fails. A
/// deletion that fails loses nothing.
pub open spec fn still_persisted(so_far: bool, op: StoreOpV, done: bool) -> bool {
    so_far && (done || !(op is Insert))
}

/// How ingestion ends once the backend has answered: the verdict for the
/// sender, what the backend is to do next, and whether the event goes out to
/// the subscribers. After a failed insertion nothing follows: no deletion,
/// no vanishing, no broadcast.
pub open spec fn conclusion(e: EventV, persisted: bool) -> (RelayMessageV, Seq<StoreOpV>, bool) {
    (
        verdict_for(e, persisted),
        if persisted {
            aftermath_ops(e)
        } else {
            Seq::empty()
        },
        persisted,
    )
}

/// Whether an event still counts as persisted once one more operation of
/// its persistence has been tried.
pub fn tally(so_far: bool, op: &StoreOp, done: bool) -> (r: bool)
    ensures
        r == still_persisted(so_far, op@, done),
{
    so_far && (done || !op.is_insert())
}

/// Ends ingestion once the backend has answered: the verdict for the
/// sender, what the backend is to do next, and whether the event goes out to
/// the subscribers.
pub fn concluded(e: &Event, persisted: bool) -> (r: (RelayMessage, Vec<StoreOp>, bool))
    ensures
        r.0@ == verdict_for(e@, persisted),
        op_views(r.1@) == if persisted {
            aftermath_ops(e@)
        } else {
            Seq::<StoreOpV>::empty()
        },
        r.2 == persisted,
        (r.0@, op_views(r.1@), r.2) == conclusion(e@, persisted),
{
    let ops = if persisted {
        aftermath(e)
    } else {
        let none: Vec<StoreOp> = Vec::new();
        assert(op_views(none@) =~= Seq::<StoreOpV>::empty());
        none
    };
    (verdict(e, persisted), ops, persisted)
}

/// The backend of the relay, held in memory: the event store, the user table
/// and the cache.
pub struct Backend {
    pub events: EventStore,
    pub users: UserStore,
    pub cache: Cache,
}

/// The mathematical value of a [`Backend`].
pub struct BackendV {
    pub events: Seq<StoredEventV>,
    pub users: Seq<UserV>,
    pub cache: Seq<CacheEntryV>,
}

impl View for Backend {
    type V = BackendV;

    open spec fn view(&self) -> BackendV {
        BackendV { events: self.events@, users: self.users@, cache: self.cache@ }
    }
}

/// The backend after one operation.
pub open spec fn applied(s: BackendV, op: StoreOpV) -> BackendV {
    match op {
        StoreOpV::Delete(t) => BackendV { events: without(s.events, t), ..s },
        StoreOpV::Insert { event, expires_at, received_at } => BackendV {
            events: inserted(s.events, StoredEventV { event, expires_at, received_at }),
            ..s
        },
        StoreOpV::MarkVanished { pubkey } => BackendV {
            users: with_status(s.users, pubkey, WhitelistStatus::Vanished),
            ..s
        },
        StoreOpV::Invalidate { pubkey } => BackendV {
            cache: dropped(s.cache, cache_key_of(pubkey)),
            ..s
        },
    }
}

/// The backend after a list of operations, done in their order.
pub open spec fn applied_all(s: BackendV, ops: Seq<StoreOpV>) -> BackendV
    decreases ops.len(),
{
    if ops.len() == 0 {
        s
    } else {
        applied(applied_all(s, ops.drop_last()), ops.last())
    }
}

/// What ingesting an event leaves and answers.
pub struct Ingested {
    /// The backend afterwards.
    pub state: BackendV,
    /// The verdict for the sender.
    pub reply: RelayMessageV,
    /// Whether the event goes out to the subscribers.
    pub broadcast: bool,
}

/// The whole pipeline on the backend in memory, given the verdict on the
/// signature: screen, ask the whitelist through the cache, persist, do what
/// follows from the kind, accept.
pub open spec fn ingested(s: BackendV, e: EventV, fault: Option<Seq<char>>, now: i64) -> Ingested {
    match screened(e, fault, now) {
        Err(m) => Ingested { state: s, reply: m, broadcast: false },
        Ok(expires_at) => {
            let asked = BackendV { cache: refreshed(s.cache, s.users, e.pubkey, now), ..s };
            if !permitted(looked_up(s.cache, s.users, e.pubkey, now)) {
                Ingested {
                    state: asked,
                    reply: refusal(e, "blocked: user not whitelisted"@),
                    broadcast: false,
                }
            } else {
                Ingested {
                    state: applied_all(
                        applied_all(asked, persistence_ops(e, expires_at, now)),
                        conclusion(e, true).1,
                    ),
                    reply: conclusion(e, true).0,
                    broadcast: conclusion(e, true).2,
                }
            }
        },
    }
}

/// The verdict and the decision to broadcast, as they come out of
/// [`Backend::ingest`].
#[derive(Debug, PartialEq, Eq)]
pub struct Outcome {
    pub reply: RelayMessage,
    pub broadcast: bool,
}

impl Backend {
    /// No two stored events share an id, and no two users a key.
    pub open spec fn wf(&self) -> bool {
        self.events.wf() && self.users.wf()
    }

    /// A backend with nothing in it.
    pub fn new() -> (r: Backend)
        ensures
            r.wf(),
            r@.events.len() == 0,
            r@.users.len() == 0,
            r@.cache.len() == 0,
    {
        Backend { events: EventStore::new(), users: UserStore::new(), cache: Cache::new() }
    }

    /// Does one operation.
    pub fn apply(&mut self, op: &StoreOp)
        ensures
            final(self)@ == applied(old(self)@, op@),
            old(self).wf() ==> final(self).wf(),
    {
        match op {
            StoreOp::Delete(t) => {
                self.events.delete(t);
            },
            StoreOp::Insert { event, expires_at, received_at } => {
                self.events.insert(event.clone(), *expires_at, *received_at);
            },
            StoreOp::MarkVanished { pubkey } => {
                self.users.set_status(pubkey.as_str(), WhitelistStatus::Vanished);
            },
            StoreOp::Invalidate { pubkey } => {
                invalidate(&mut self.cache, pubkey.as_str());
            },
        }
    }

    /// Does a list of operations in their order.
    pub fn apply_all(&mut self, ops: &Vec<StoreOp>)
        ensures
            final(self)@ == applied_all(old(self)@, op_views(ops@)),
            old(self).wf() ==> final(self).wf(),
    {
        let ghost all = op_views(ops@);
        let mut i: usize = 0;
        assert(all.take(0) =~= Seq::empty());
        while i < ops.len()
            invariant
                i <= ops.len(),
                all == op_views(ops@),
                self@ == applied_all(old(self)@, all.take(i as int)),
                old(self).wf() ==> self.wf(),
            decreases ops.len() - i,
        {
            let ghost upto = all.take(i + 1);
            assert(upto.drop_last() =~= all.take(i as int));
            assert(upto.last() == ops@[i as int]@);
            self.apply(&ops[i]);
            i += 1;
        }
        assert(all.take(i as int) =~= all);
    }

    /// The pipeline after the signature check, given its verdict.
    pub fn ingest_checked(&mut self, e: &Event, fault: Option<String>, now: i64) -> (r: Outcome)
        ensures
            final(self)@ == ingested(old(self)@, e@, crate::strict::text_option(fault), now).state,
            r.reply@ == ingested(old(self)@, e@, crate::strict::text_option(fault), now).reply,
            r.broadcast == ingested(
                old(self)@,
                e@,
                crate::strict::text_option(fault),
                now,
            ).broadcast,
            old(self).wf() ==> final(self).wf(),
    {
        let expires_at = match screen(e, fault, now) {
            Ok(t) => t,
            Err(m) => {
                return Outcome { reply: m, broadcast: false };
            },
        };
        let access = lookup(&mut self.cache, &self.users, e.pubkey.as_str(), now);
        if let Some(m) = gate(e, access) {
            return Outcome { reply: m, broadcast: false };
        }
        self.apply_all(&persistence(e, expires_at, now));
        let (reply, next, broadcast) = concluded(e, true);
        self.apply_all(&next);
        Outcome { reply, broadcast }
    }

    /// Ingests an event: checks its signature and runs the pipeline.
    pub fn ingest(&mut self, e: &Event, now: i64) -> (r: Outcome)
        ensures
            final(self)@ == ingested(old(self)@, e@, signature_fault(event_text(e@)), now).state,
            r.reply@ == ingested(old(self)@, e@, signature_fault(event_text(e@)), now).reply,
            r.broadcast == ingested(
                old(self)@,
                e@,
                signature_fault(event_text(e@)),
                now,
            ).broadcast,
            old(self).wf() ==> final(self).wf(),
    {
        let fault = match e.verify() {
            Ok(()) => None,
            Err(why) => Some(why),
        };
        self.ingest_checked(e, fault, now)
    }
}

} // verus!
