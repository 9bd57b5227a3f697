//! The relay in memory: a connection served on the model backend.

use crate::connection::{received, session_opened, Connection, ConnectionV, Step, StepV};
use crate::event::{event_text, Event, EventV};
use crate::frame::{classified, classify};
use crate::ingest::{ingested, Backend, BackendV};
use crate::message::{message_views, RelayMessage, RelayMessageV};
use crate::rpc::administered;
use crate::reconcile::{ids_matching, matching_ids};
use crate::store::{row_events, selected};
use crate::strict::signature_fault;
use crate::subscription::{answer, answered, deliveries, receivers};
use vstd::prelude::*;

verus! {

/// What serving one frame leaves behind.
#[derive(Debug, PartialEq, Eq)]
pub struct Served {
    /// The frames for the sender, in their order.
    pub replies: Vec<RelayMessage>,
    /// The event to hand to every connection, if one was accepted.
    pub broadcast: Option<Event>,
}

/// The mathematical value of what serving one frame does.
pub struct ServedV {
    pub connection: ConnectionV,
    pub backend: BackendV,
    pub replies: Seq<RelayMessageV>,
    pub broadcast: Option<EventV>,
}

/// At most one frame as a list.
pub open spec fn as_list(m: Option<RelayMessageV>) -> Seq<RelayMessageV> {
    match m {
        Some(x) => seq![x],
        None => Seq::empty(),
    }
}

/// What a step does on the backend in memory at time `now`.
pub open spec fn performed(c: ConnectionV, s: BackendV, step: StepV, now: i64) -> ServedV {
    match step {
        StepV::Nothing => ServedV {
            connection: c,
            backend: s,
            replies: Seq::empty(),
            broadcast: None,
        },
        StepV::Send(m) => ServedV { connection: c, backend: s, replies: seq![m], broadcast: None },
        StepV::Ingest(e) => {
            let out = ingested(s, e, signature_fault(event_text(e)), now);
            ServedV {
                connection: c,
                backend: out.state,
                replies: seq![out.reply],
                broadcast: if out.broadcast {
                    Some(e)
                } else {
                    None
                },
            }
        },
        StepV::Query { sub_id, filters, selection } => ServedV {
            connection: c,
            backend: s,
            replies: answered(sub_id, filters, selected(s.events, selection, now)),
            broadcast: None,
        },
        StepV::LoadIds { sub_id, filter, initial } => {
            let ids = matching_ids(filter, row_events(s.events));
            let (after, m) = session_opened(c, sub_id, initial, ids);
            ServedV { connection: after, backend: s, replies: as_list(m), broadcast: None }
        },
        StepV::Admin(j) => {
            let (after, answer) = administered(s, c.auth, j);
            ServedV {
                connection: c,
                backend: after,
                replies: as_list(
                    match answer {
                        Some(x) => Some(RelayMessageV::Rpc(x)),
                        None => None,
                    },
                ),
                broadcast: None,
            }
        },
    }
}

/// What a text frame does to a connection and to the backend in memory at
/// time `now`.
pub open spec fn served(c: ConnectionV, s: BackendV, text: Seq<char>, now: i64) -> ServedV {
    let (after, step) = received(c, classified(text));
    performed(after, s, step, now)
}

/// The values of a list of connections.
pub open spec fn connection_views(c: Seq<Connection>) -> Seq<ConnectionV> {
    Seq::new(c.len(), |i: int| c[i]@)
}

/// What the hub hands out for an accepted event: for each connection, in
/// their order, the frames for its subscriptions that the event is for.
pub open spec fn fanned_out(c: Seq<ConnectionV>, e: EventV) -> Seq<Seq<RelayMessageV>> {
    Seq::new(c.len(), |i: int| deliveries(receivers(c[i].subscriptions, e), e))
}

/// The event to broadcast, as a value.
pub open spec fn event_option(e: Option<Event>) -> Option<EventV> {
    match e {
        Some(x) => Some(x@),
        None => None,
    }
}

fn one_frame(m: RelayMessage) -> (r: Vec<RelayMessage>)
    ensures
        message_views(r@) == seq![m@],
{
    let mut r: Vec<RelayMessage> = Vec::new();
    r.push(m);
    assert(message_views(r@) =~= seq![m@]);
    r
}

fn no_frame() -> (r: Vec<RelayMessage>)
    ensures
        message_views(r@) == Seq::<RelayMessageV>::empty(),
{
    let r: Vec<RelayMessage> = Vec::new();
    assert(message_views(r@) =~= Seq::<RelayMessageV>::empty());
    r
}

/// Does on the backend in memory what a connection asked for.
pub fn perform(conn: &mut Connection, backend: &mut Backend, step: Step, now: i64) -> (r: Served)
    ensures
        final(conn)@ == performed(old(conn)@, old(backend)@, step@, now).connection,
        final(backend)@ == performed(old(conn)@, old(backend)@, step@, now).backend,
        message_views(r.replies@) == performed(old(conn)@, old(backend)@, step@, now).replies,
        event_option(r.broadcast) == performed(old(conn)@, old(backend)@, step@, now).broadcast,
        old(conn).wf() ==> final(conn).wf(),
        old(backend).wf() ==> final(backend).wf(),
{
    match step {
        Step::Nothing => Served { replies: no_frame(), broadcast: None },
        Step::Send(m) => Served { replies: one_frame(m), broadcast: None },
        Step::Ingest(e) => {
            let out = backend.ingest(&e, now);
            let broadcast = if out.broadcast {
                Some(e)
            } else {
                None
            };
            Served { replies: one_frame(out.reply), broadcast }
        },
        Step::Query { sub_id, filters, selection } => {
            let rows = backend.events.select(&selection, now);
            Served { replies: answer(sub_id.as_str(), &filters, &rows), broadcast: None }
        },
        Step::LoadIds { sub_id, filter, initial } => {
            let ids = ids_matching(&filter, &backend.events.all_events());
            let replies = match conn.open_session(sub_id.as_str(), initial.as_str(), &ids) {
                Some(m) => one_frame(m),
                None => no_frame(),
            };
            Served { replies, broadcast: None }
        },
        Step::Admin(j) => {
            let replies = match backend.administer(conn.auth_pubkey(), &j) {
                Some(x) => one_frame(RelayMessage::Rpc(x)),
                None => no_frame(),
            };
            Served { replies, broadcast: None }
        },
    }
}

/// Hands an accepted event to every connection and collects, for each, the
/// frames that it sends to its client.
pub fn fan_out(connections: &Vec<Connection>, e: &Event) -> (r: Vec<Vec<RelayMessage>>)
    ensures
        r.len() == connections.len(),
        forall|i: int|
            0 <= i < r.len() ==> message_views(#[trigger] r@[i]@) == fanned_out(
                connection_views(connections@),
                e@,
            )[i],
{
    let mut r: Vec<Vec<RelayMessage>> = Vec::new();
    let mut i: usize = 0;
    while i < connections.len()
        invariant
            i <= connections.len(),
            r.len() == i,
            forall|k: int|
                0 <= k < i ==> message_views(#[trigger] r@[k]@) == deliveries(
                    receivers(connections@[k]@.subscriptions, e@),
                    e@,
                ),
        decreases connections.len() - i,
    {
        r.push(connections[i].on_broadcast(e));
        i += 1;
    }
    r
}

/// Serves one text frame of a connection on the backend in memory.
pub fn serve(conn: &mut Connection, backend: &mut Backend, text: &str, now: i64) -> (r: Served)
    ensures
        final(conn)@ == served(old(conn)@, old(backend)@, text@, now).connection,
        final(backend)@ == served(old(conn)@, old(backend)@, text@, now).backend,
        message_views(r.replies@) == served(old(conn)@, old(backend)@, text@, now).replies,
        event_option(r.broadcast) == served(old(conn)@, old(backend)@, text@, now).broadcast,
        old(conn).wf() ==> final(conn).wf(),
        old(backend).wf() ==> final(backend).wf(),
{
    let step = conn.receive(classify(text));
    perform(conn, backend, step, now)
}

} // verus!
