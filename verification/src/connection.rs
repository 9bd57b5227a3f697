//! The state machine of one connection.

use crate::event::{event_text, tag_values, Event, EventV};
use crate::filter::{filter_views, json_filter, Filter, FilterV};
use crate::frame::{classified, classify, Inbound, InboundV};
use crate::ingest::refusal;
use crate::json::{parse_text, parsed, render_value, rendered, Json, JsonV};
use crate::message::{ClientMessage, ClientMessageV, RelayMessage, RelayMessageV};
use crate::query::{lower, lowered, Selection, SelectionV};
use crate::reconcile::{
    advanced, begun, ended, items_of, neg_frame, replied, session_ids, unique_sessions,
    NamedSessionV, Session, SessionTable,
};
use crate::strict::{normalize_filter, signature_fault, strict_filter, text_option};
use crate::subscription::{
    closed, deliveries, opened, receivers, unique_names, Registry, SubscriptionV,
};
use crate::text::joined;
use crate::token::{fresh_token, token_char, TOKEN_LENGTH};
use vstd::prelude::*;

verus! {

/// The kind of the event that answers the authentication challenge.
pub const KIND_AUTH: u64 = 22242;

/// The length of a challenge.
pub const CHALLENGE_LENGTH: usize = TOKEN_LENGTH;

/// The seconds between two heartbeat pings of a connection.
pub const HEARTBEAT_SECONDS: u64 = 30;

/// The number of outbound frames that a connection holds back for a slow
/// client before its reader stalls.
pub const OUTBOUND_BUFFER: usize = 100;

/// The number of accepted events that the hub holds for a slow subscriber
/// before it misses some.
pub const BROADCAST_BUFFER: usize = 1000;

/// What a connection asks of the backend, or sends, on an inbound frame.
#[derive(Debug, PartialEq, Eq)]
#[allow(inconsistent_fields)]
pub enum Step {
    /// Nothing.
    Nothing,
    /// Send a frame.
    Send(RelayMessage),
    /// Run the ingestion pipeline on an event.
    Ingest(Event),
    /// Read the store for a subscription that was just opened, then answer
    /// it from the rows.
    Query { sub_id: String, filters: Vec<Filter>, selection: Selection },
    /// Load the ids of the stored events that the filter matches, then
    /// open a reconciliation session over them.
    LoadIds { sub_id: String, filter: Filter, initial: String },
    /// Serve an administrative request.
    Admin(Json),
}

/// The mathematical value of a [`Step`].
#[allow(inconsistent_fields)]
pub enum StepV {
    Nothing,
    Send(RelayMessageV),
    Ingest(EventV),
    Query { sub_id: Seq<char>, filters: Seq<FilterV>, selection: SelectionV },
    LoadIds { sub_id: Seq<char>, filter: FilterV, initial: Seq<char> },
    Admin(JsonV),
}

impl View for Step {
    type V = StepV;

    open spec fn view(&self) -> StepV {
        match self {
            Step::Nothing => StepV::Nothing,
            Step::Send(m) => StepV::Send(m@),
            Step::Ingest(e) => StepV::Ingest(e@),
            Step::Query { sub_id, filters, selection } => StepV::Query {
                sub_id: sub_id@,
                filters: filter_views(filters@),
                selection: selection@,
            },
            Step::LoadIds { sub_id, filter, initial } => StepV::LoadIds {
                sub_id: sub_id@,
                filter: filter@,
                initial: initial@,
            },
            Step::Admin(j) => StepV::Admin(j@),
        }
    }
}

/// The state of one connection.
pub struct Connection {
    challenge: String,
    auth_pubkey: Option<String>,
    subscriptions: Registry,
    sessions: SessionTable,
}

/// The mathematical value of a [`Connection`].
pub struct ConnectionV {
    pub challenge: Seq<char>,
    pub auth: Option<Seq<char>>,
    pub subscriptions: Seq<SubscriptionV>,
    pub sessions: Seq<NamedSessionV>,
}

impl View for Connection {
    type V = ConnectionV;

    closed spec fn view(&self) -> ConnectionV {
        ConnectionV {
            challenge: self.challenge@,
            auth: text_option(self.auth_pubkey),
            subscriptions: self.subscriptions@,
            sessions: self.sessions@,
        }
    }
}

/// The state of a connection that has just been made.
pub open spec fn initial(challenge: Seq<char>) -> ConnectionV {
    ConnectionV {
        challenge,
        auth: None,
        subscriptions: Seq::empty(),
        sessions: Seq::empty(),
    }
}

/// What an answer to the challenge leads to: the key that is authenticated
/// from then on and the verdict sent. A refused answer leaves the key as it
/// was. The kind is looked at first, then the challenge, then the signature.
pub open spec fn authenticated(
    c: ConnectionV,
    e: EventV,
    fault: Option<Seq<char>>,
) -> (Option<Seq<char>>, RelayMessageV) {
    if e.kind != KIND_AUTH {
        (c.auth, refusal(e, "error: invalid kind for auth"@))
    } else if !tag_values(e.tags, "challenge"@).contains(c.challenge) {
        (c.auth, refusal(e, "error: invalid challenge"@))
    } else {
        match fault {
            Some(why) => (c.auth, refusal(e, "error: invalid signature: "@ + why)),
            None => (
                Some(e.pubkey),
                RelayMessageV::Ack { event_id: e.id, accepted: true, message: "auth-success"@ },
            ),
        }
    }
}

/// The frame sent when a subscription is closed.
pub open spec fn closed_frame(sub_id: Seq<char>) -> RelayMessageV {
    RelayMessageV::Closed { sub_id, reason: "Subscription closed"@ }
}

/// The step that opens a subscription.
pub open spec fn query_step(sub_id: Seq<char>, filters: Seq<FilterV>) -> StepV {
    StepV::Query { sub_id, filters, selection: lowered(filters) }
}

/// The filter that the strict decoder reads from a JSON value; `None` where
/// it refuses the value.
pub open spec fn strict_filter_of(j: JsonV) -> Option<FilterV> {
    match strict_filter(rendered(j)) {
        Some(normal) => match parsed(normal) {
            Some(read) => Some(json_filter(read)),
            None => None,
        },
        None => None,
    }
}

/// What a connection does on an inbound frame: its state afterwards and the
/// step it takes.
pub open spec fn received(c: ConnectionV, inbound: InboundV) -> (ConnectionV, StepV) {
    match inbound {
        InboundV::Ignored => (c, StepV::Nothing),
        InboundV::Rpc(j) => (c, StepV::Admin(j)),
        InboundV::NegOpen { sub_id, filter, initial } => match strict_filter_of(filter) {
            Some(f) => (c, StepV::LoadIds { sub_id, filter: f, initial }),
            None => (c, StepV::Nothing),
        },
        InboundV::NegMsg { sub_id, message } => match advanced(c.sessions, sub_id, message) {
            Some(answer) => (c, StepV::Send(RelayMessageV::NegMsg { sub_id, message: answer })),
            None => (c, StepV::Nothing),
        },
        InboundV::NegClose { sub_id } => (
            ConnectionV { sessions: ended(c.sessions, sub_id), ..c },
            StepV::Nothing,
        ),
        InboundV::Client(ClientMessageV::Event(e)) => (c, StepV::Ingest(e)),
        InboundV::Client(ClientMessageV::Req { sub_id, filters }) => (
            ConnectionV { subscriptions: opened(c.subscriptions, sub_id, filters), ..c },
            query_step(sub_id, filters),
        ),
        InboundV::Client(ClientMessageV::Close(sub_id)) => (
            ConnectionV { subscriptions: closed(c.subscriptions, sub_id), ..c },
            StepV::Send(closed_frame(sub_id)),
        ),
        InboundV::Client(ClientMessageV::Auth(e)) => {
            let (auth, verdict) = authenticated(c, e, signature_fault(event_text(e)));
            (ConnectionV { auth, ..c }, StepV::Send(verdict))
        },
        InboundV::PrefixReq { sub_id, filter } => (
            ConnectionV { subscriptions: opened(c.subscriptions, sub_id, seq![filter]), ..c },
            query_step(sub_id, seq![filter]),
        ),
        InboundV::Invalid(why) => (
            c,
            StepV::Send(RelayMessageV::Notice("Invalid message: "@ + why)),
        ),
    }
}

/// What the transport hands to a connection.
#[derive(Debug, PartialEq, Eq)]
pub enum Arrival {
    /// A text frame.
    Text(String),
    /// A frame of another kind that asks for nothing: binary, ping or pong.
    Other,
    /// The close frame of the client.
    Close,
    /// An error of the transport.
    Failure,
    /// The end of the stream.
    End,
}

/// The mathematical value of an [`Arrival`].
pub enum ArrivalV {
    Text(Seq<char>),
    Other,
    Close,
    Failure,
    End,
}

impl View for Arrival {
    type V = ArrivalV;

    open spec fn view(&self) -> ArrivalV {
        match self {
            Arrival::Text(t) => ArrivalV::Text(t@),
            Arrival::Other => ArrivalV::Other,
            Arrival::Close => ArrivalV::Close,
            Arrival::Failure => ArrivalV::Failure,
            Arrival::End => ArrivalV::End,
        }
    }
}

/// How a connection goes on after an arrival.
#[derive(Debug, PartialEq, Eq)]
pub enum Turn {
    /// Take the step and wait for the next arrival.
    Continue(Step),
    /// Leave the loop; the tasks that send and that ping are cancelled.
    Stop,
}

/// The mathematical value of a [`Turn`].
pub enum TurnV {
    Continue(StepV),
    Stop,
}

impl View for Turn {
    type V = TurnV;

    open spec fn view(&self) -> TurnV {
        match self {
            Turn::Continue(s) => TurnV::Continue(s@),
            Turn::Stop => TurnV::Stop,
        }
    }
}

/// What a connection does on an arrival: a text frame is read and acted on,
/// a close frame, an error or the end of the stream end the connection, and
/// anything else is passed over.
pub open spec fn arrived(c: ConnectionV, a: ArrivalV) -> (ConnectionV, TurnV) {
    match a {
        ArrivalV::Text(text) => (
            received(c, classified(text)).0,
            TurnV::Continue(received(c, classified(text)).1),
        ),
        ArrivalV::Other => (c, TurnV::Continue(StepV::Nothing)),
        _ => (c, TurnV::Stop),
    }
}

/// What becomes of a reconciliation session once the ids are loaded: the
/// session is kept, and its answer sent, where it answers the first message;
/// else nothing is kept and nothing sent.
pub open spec fn session_opened(
    c: ConnectionV,
    sub_id: Seq<char>,
    first: Seq<char>,
    ids: Seq<Seq<char>>,
) -> (ConnectionV, Option<RelayMessageV>) {
    let items = items_of(session_ids(ids));
    match replied(items, first) {
        Some(answer) => (
            ConnectionV { sessions: begun(c.sessions, sub_id, items), ..c },
            Some(RelayMessageV::NegMsg { sub_id, message: answer }),
        ),
        None => (c, None),
    }
}

/// Reads a filter with the strict decoder; `None` where it refuses the
/// value.
pub fn read_strict_filter(j: &Json) -> (r: Option<Filter>)
    ensures
        r.is_some() == strict_filter_of(j@).is_some(),
        r matches Some(f) ==> Some(f@) == strict_filter_of(j@),
{
    let text = render_value(j);
    match normalize_filter(text.as_str()) {
        Some(normal) => match parse_text(normal.as_str()) {
            Some(read) => Some(Filter::from_json(&read)),
            None => None,
        },
        None => None,
    }
}

fn refuse(e: &Event, reason: String) -> (r: RelayMessage)
    ensures
        r@ == refusal(e@, reason@),
{
    RelayMessage::Ack { event_id: e.id.clone(), accepted: false, message: reason }
}

impl Connection {
    /// No two subscriptions have the same name, and no two sessions.
    pub open spec fn wf(&self) -> bool {
        unique_names(self@.subscriptions) && unique_sessions(self@.sessions)
    }

    /// A connection with the given challenge, and the frame that sends the
    /// challenge to the client.
    pub fn with_challenge(challenge: String) -> (r: (Connection, RelayMessage))
        ensures
            r.0@ == initial(challenge@),
            r.0.wf(),
            r.1@ == RelayMessageV::Auth(challenge@),
    {
        let frame = RelayMessage::Auth(challenge.clone());
        let c = Connection {
            challenge,
            auth_pubkey: None,
            subscriptions: Registry::new(),
            sessions: SessionTable::new(),
        };
        (c, frame)
    }

    /// A connection with a challenge drawn at random, and the frame that
    /// sends the challenge to the client.
    pub fn start() -> (r: (Connection, RelayMessage))
        ensures
            r.0@ == initial(r.0@.challenge),
            r.0.wf(),
            r.1@ == RelayMessageV::Auth(r.0@.challenge),
            r.0@.challenge.len() == CHALLENGE_LENGTH,
            forall|i: int|
                0 <= i < r.0@.challenge.len() ==> token_char(#[trigger] r.0@.challenge[i]),
    {
        Connection::with_challenge(fresh_token())
    }

    /// The key that has authenticated, if any.
    pub fn auth_pubkey(&self) -> (r: &Option<String>)
        ensures
            text_option(*r) == self@.auth,
    {
        &self.auth_pubkey
    }

    /// The challenge of the connection.
    pub fn challenge(&self) -> (r: &String)
        ensures
            r@ == self@.challenge,
    {
        &self.challenge
    }

    /// The number of open subscriptions.
    pub fn subscription_count(&self) -> (r: usize)
        ensures
            r == self@.subscriptions.len(),
    {
        self.subscriptions.len()
    }

    /// The number of reconciliation sessions.
    pub fn session_count(&self) -> (r: usize)
        ensures
            r == self@.sessions.len(),
    {
        self.sessions.len()
    }

    /// Judges an answer to the challenge, given the verdict on its
    /// signature.
    pub fn authenticate_checked(&mut self, e: &Event, fault: Option<String>) -> (r: RelayMessage)
        ensures
            r@ == authenticated(old(self)@, e@, text_option(fault)).1,
            final(self)@ == (ConnectionV {
                auth: authenticated(old(self)@, e@, text_option(fault)).0,
                ..old(self)@
            }),
            old(self).wf() ==> final(self).wf(),
    {
        if e.kind != KIND_AUTH {
            return refuse(e, String::from_str("error: invalid kind for auth"));
        }
        if !e.has_challenge(self.challenge.as_str()) {
            return refuse(e, String::from_str("error: invalid challenge"));
        }
        match fault {
            Some(why) => refuse(e, joined("error: invalid signature: ", why.as_str())),
            None => {
                self.auth_pubkey = Some(e.pubkey.clone());
                RelayMessage::Ack {
                    event_id: e.id.clone(),
                    accepted: true,
                    message: String::from_str("auth-success"),
                }
            },
        }
    }

    /// Judges an answer to the challenge.
    pub fn authenticate(&mut self, e: &Event) -> (r: RelayMessage)
        ensures
            r@ == authenticated(old(self)@, e@, signature_fault(event_text(e@))).1,
            final(self)@ == (ConnectionV {
                auth: authenticated(old(self)@, e@, signature_fault(event_text(e@))).0,
                ..old(self)@
            }),
            old(self).wf() ==> final(self).wf(),
    {
        let fault = match e.verify() {
            Ok(()) => None,
            Err(why) => Some(why),
        };
        self.authenticate_checked(e, fault)
    }

    fn subscribe(&mut self, sub_id: String, filters: Vec<Filter>) -> (r: Step)
        ensures
            r@ == query_step(sub_id@, filter_views(filters@)),
            final(self)@ == (ConnectionV {
                subscriptions: opened(old(self)@.subscriptions, sub_id@, filter_views(filters@)),
                ..old(self)@
            }),
            old(self).wf() ==> final(self).wf(),
    {
        let selection = lower(&filters);
        let kept = crate::filter::copy_filters(&filters);
        self.subscriptions.open(sub_id.as_str(), kept);
        Step::Query { sub_id, filters, selection }
    }

    /// Takes an inbound frame: changes the state as the frame asks and says
    /// what is to be done next.
    pub fn receive(&mut self, inbound: Inbound) -> (r: Step)
        ensures
            r@ == received(old(self)@, inbound@).1,
            final(self)@ == received(old(self)@, inbound@).0,
            old(self).wf() ==> final(self).wf(),
    {
        match inbound {
            Inbound::Ignored => Step::Nothing,
            Inbound::Rpc(j) => Step::Admin(j),
            Inbound::NegOpen { sub_id, filter, initial } => match read_strict_filter(&filter) {
                Some(filter) => Step::LoadIds { sub_id, filter, initial },
                None => Step::Nothing,
            },
            Inbound::NegMsg { sub_id, message } => {
                match self.sessions.advance(sub_id.as_str(), message.as_str()) {
                    Some(answer) => Step::Send(neg_frame(sub_id.as_str(), answer)),
                    None => Step::Nothing,
                }
            },
            Inbound::NegClose { sub_id } => {
                self.sessions.end(sub_id.as_str());
                Step::Nothing
            },
            Inbound::Client(ClientMessage::Event(e)) => Step::Ingest(e),
            Inbound::Client(ClientMessage::Req { sub_id, filters }) => self.subscribe(
                sub_id,
                filters,
            ),
            Inbound::Client(ClientMessage::Close(sub_id)) => {
                self.subscriptions.close(sub_id.as_str());
                Step::Send(
                    RelayMessage::Closed {
                        sub_id,
                        reason: String::from_str("Subscription closed"),
                    },
                )
            },
            Inbound::Client(ClientMessage::Auth(e)) => Step::Send(self.authenticate(&e)),
            Inbound::PrefixReq { sub_id, filter } => {
                let mut filters: Vec<Filter> = Vec::new();
                filters.push(filter);
                assert(filter_views(filters@) =~= seq![filter@]);
                self.subscribe(sub_id, filters)
            },
            Inbound::Invalid(why) => Step::Send(
                RelayMessage::Notice(joined("Invalid message: ", why.as_str())),
            ),
        }
    }

    /// Takes what the transport hands over.
    pub fn on_arrival(&mut self, a: Arrival) -> (r: Turn)
        ensures
            r@ == arrived(old(self)@, a@).1,
            final(self)@ == arrived(old(self)@, a@).0,
            old(self).wf() ==> final(self).wf(),
    {
        match a {
            Arrival::Text(text) => Turn::Continue(self.receive(classify(text.as_str()))),
            Arrival::Other => Turn::Continue(Step::Nothing),
            _ => Turn::Stop,
        }
    }

    /// Opens a reconciliation session over the ids that were loaded and
    /// hands it the first message.
    pub fn open_session(&mut self, sub_id: &str, first: &str, ids: &Vec<String>) -> (r: Option<
        RelayMessage,
    >)
        ensures
            final(self)@ == session_opened(old(self)@, sub_id@, first@, ids.deep_view()).0,
            r.is_some() == session_opened(old(self)@, sub_id@, first@, ids.deep_view()).1.is_some(),
            r matches Some(m) ==> Some(m@) == session_opened(
                old(self)@,
                sub_id@,
                first@,
                ids.deep_view(),
            ).1,
            old(self).wf() ==> final(self).wf(),
    {
        let mut session = match Session::build(ids) {
            Some(s) => s,
            None => {
                return None;
            },
        };
        match session.step(first) {
            Some(answer) => {
                self.sessions.begin(sub_id, session);
                Some(neg_frame(sub_id, answer))
            },
            None => None,
        }
    }

    /// The frames that carry a broadcast event to the subscriptions of this
    /// connection that it is for.
    pub fn on_broadcast(&self, e: &Event) -> (r: Vec<RelayMessage>)
        ensures
            crate::message::message_views(r@) == deliveries(
                receivers(self@.subscriptions, e@),
                e@,
            ),
    {
        self.subscriptions.deliver(e)
    }
}

} // verus!
