//! Messages between client and relay, and their JSON.

use crate::event::{event_json, json_event, Event, EventV};
use crate::filter::{filter_views, json_filter, Filter, FilterV};
use crate::json::{parse_text, parsed, render_value, rendered, views, Json, JsonV};
use crate::text::str_eq;
use vstd::prelude::*;

verus! {

/// A message from a client, decoded.
#[derive(Debug, PartialEq, Eq)]
pub enum ClientMessage {
    /// An event to be ingested.
    Event(Event),
    /// A subscription to open or replace.
    Req { sub_id: String, filters: Vec<Filter> },
    /// A subscription to close.
    Close(String),
    /// The answer to the authentication challenge.
    Auth(Event),
}

/// The mathematical value of a [`ClientMessage`].
pub enum ClientMessageV {
    Event(EventV),
    Req { sub_id: Seq<char>, filters: Seq<FilterV> },
    Close(Seq<char>),
    Auth(EventV),
}

impl View for ClientMessage {
    type V = ClientMessageV;

    open spec fn view(&self) -> ClientMessageV {
        match self {
            ClientMessage::Event(e) => ClientMessageV::Event(e@),
            ClientMessage::Req { sub_id, filters } => ClientMessageV::Req {
                sub_id: sub_id@,
                filters: filter_views(filters@),
            },
            ClientMessage::Close(s) => ClientMessageV::Close(s@),
            ClientMessage::Auth(e) => ClientMessageV::Auth(e@),
        }
    }
}

/// The filters that a run of JSON objects writes.
pub open spec fn json_filters(items: Seq<JsonV>) -> Seq<FilterV> {
    Seq::new(items.len(), |i: int| json_filter(items[i]))
}

/// The client message that a JSON array writes. The first item names the
/// kind of message; `None` where the array is empty, names no kind that the
/// relay acts on, or lacks what its kind of message needs.
pub open spec fn json_message(j: JsonV) -> Option<ClientMessageV> {
    match j {
        JsonV::Array(a) => if a.len() == 0 {
            None
        } else if a[0].text_or_empty() == "EVENT"@ {
            if a.len() >= 2 && json_event(a[1]).is_some() {
                Some(ClientMessageV::Event(json_event(a[1]).unwrap()))
            } else {
                None
            }
        } else if a[0].text_or_empty() == "AUTH"@ {
            if a.len() >= 2 && json_event(a[1]).is_some() {
                Some(ClientMessageV::Auth(json_event(a[1]).unwrap()))
            } else {
                None
            }
        } else if a[0].text_or_empty() == "REQ"@ {
            if a.len() >= 3 && a[1] is Str {
                Some(ClientMessageV::Req { sub_id: a[1]->Str_0, filters: json_filters(a.skip(2)) })
            } else {
                None
            }
        } else if a[0].text_or_empty() == "CLOSE"@ {
            if a.len() >= 2 && a[1] is Str {
                Some(ClientMessageV::Close(a[1]->Str_0))
            } else {
                None
            }
        } else {
            None
        },
        _ => None,
    }
}

/// The client message that a text writes, if it writes one.
pub open spec fn text_message(text: Seq<char>) -> Option<ClientMessageV> {
    match parsed(text) {
        Some(j) => json_message(j),
        None => None,
    }
}

/// Whether an array has a head, and the head is the string `word`; a head
/// that is no string counts as the empty string.
pub fn head_is(items: &Vec<Json>, word: &str) -> (r: bool)
    ensures
        r == (items.len() > 0 && views(items@)[0].text_or_empty() == word@),
{
    proof {
        reveal_strlit("");
        assert(""@ =~= Seq::<char>::empty());
    }
    if items.len() == 0 {
        return false;
    }
    assert(views(items@)[0] == items@[0]@);
    match items[0].as_str() {
        Some(s) => str_eq(s.as_str(), word),
        None => str_eq("", word),
    }
}

fn read_filters(items: &Vec<Json>) -> (r: Vec<Filter>)
    requires
        items.len() >= 2,
    ensures
        filter_views(r@) == json_filters(views(items@).skip(2)),
{
    let mut r: Vec<Filter> = Vec::new();
    let mut i: usize = 2;
    while i < items.len()
        invariant
            2 <= i <= items.len(),
            r.len() == i - 2,
            forall|k: int| 0 <= k < i - 2 ==> r@[k]@ == json_filter(items@[k + 2]@),
        decreases items.len() - i,
    {
        r.push(Filter::from_json(&items[i]));
        i += 1;
    }
    assert(filter_views(r@) =~= json_filters(views(items@).skip(2)));
    r
}

impl ClientMessage {
    /// Reads a client message from a JSON array.
    pub fn from_json(j: &Json) -> (r: Option<ClientMessage>)
        ensures
            r.is_some() == json_message(j@).is_some(),
            r matches Some(m) ==> Some(m@) == json_message(j@),
    {
        let a = match j.as_array() {
            Some(a) => a,
            None => {
                return None;
            },
        };
        if a.len() == 0 {
            return None;
        }
        assert(views(a@)[0] == a@[0]@);
        if head_is(a, "EVENT") {
            if a.len() < 2 {
                return None;
            }
            assert(views(a@)[1] == a@[1]@);
            match Event::from_json(&a[1]) {
                Some(e) => Some(ClientMessage::Event(e)),
                None => None,
            }
        } else if head_is(a, "AUTH") {
            if a.len() < 2 {
                return None;
            }
            assert(views(a@)[1] == a@[1]@);
            match Event::from_json(&a[1]) {
                Some(e) => Some(ClientMessage::Auth(e)),
                None => None,
            }
        } else if head_is(a, "REQ") {
            if a.len() < 3 {
                return None;
            }
            assert(views(a@)[1] == a@[1]@);
            match a[1].as_str() {
                Some(s) => Some(ClientMessage::Req { sub_id: s.clone(), filters: read_filters(a) }),
                None => None,
            }
        } else if head_is(a, "CLOSE") {
            if a.len() < 2 {
                return None;
            }
            assert(views(a@)[1] == a@[1]@);
            match a[1].as_str() {
                Some(s) => Some(ClientMessage::Close(s.clone())),
                None => None,
            }
        } else {
            None
        }
    }

    /// Reads a client message from the text of a JSON array.
    pub fn from_text(text: &str) -> (r: Option<ClientMessage>)
        ensures
            r.is_some() == text_message(text@).is_some(),
            r matches Some(m) ==> Some(m@) == text_message(text@),
    {
        match parse_text(text) {
            Some(j) => ClientMessage::from_json(&j),
            None => None,
        }
    }
}

/// A message from the relay to a client.
#[derive(Debug, PartialEq, Eq)]
pub enum RelayMessage {
    /// An event for a subscription.
    Event { sub_id: String, event: Event },
    /// The verdict on an event that the client sent.
    Ack { event_id: String, accepted: bool, message: String },
    /// The end of the stored events of a subscription.
    Eose(String),
    /// A subscription was closed.
    Closed { sub_id: String, reason: String },
    /// A notice for a human reader.
    Notice(String),
    /// The authentication challenge.
    Auth(String),
    /// A reconciliation message, in hex.
    NegMsg { sub_id: String, message: String },
    /// The response to an administrative request.
    Rpc(Json),
}

/// The mathematical value of a [`RelayMessage`].
pub enum RelayMessageV {
    Event { sub_id: Seq<char>, event: EventV },
    Ack { event_id: Seq<char>, accepted: bool, message: Seq<char> },
    Eose(Seq<char>),
    Closed { sub_id: Seq<char>, reason: Seq<char> },
    Notice(Seq<char>),
    Auth(Seq<char>),
    NegMsg { sub_id: Seq<char>, message: Seq<char> },
    Rpc(JsonV),
}

impl View for RelayMessage {
    type V = RelayMessageV;

    open spec fn view(&self) -> RelayMessageV {
        match self {
            RelayMessage::Event { sub_id, event } => RelayMessageV::Event {
                sub_id: sub_id@,
                event: event@,
            },
            RelayMessage::Ack { event_id, accepted, message } => RelayMessageV::Ack {
                event_id: event_id@,
                accepted: *accepted,
                message: message@,
            },
            RelayMessage::Eose(s) => RelayMessageV::Eose(s@),
            RelayMessage::Closed { sub_id, reason } => RelayMessageV::Closed {
                sub_id: sub_id@,
                reason: reason@,
            },
            RelayMessage::Notice(s) => RelayMessageV::Notice(s@),
            RelayMessage::Auth(s) => RelayMessageV::Auth(s@),
            RelayMessage::NegMsg { sub_id, message } => RelayMessageV::NegMsg {
                sub_id: sub_id@,
                message: message@,
            },
            RelayMessage::Rpc(j) => RelayMessageV::Rpc(j@),
        }
    }
}

/// The values of a list of relay messages.
pub open spec fn message_views(m: Seq<RelayMessage>) -> Seq<RelayMessageV> {
    Seq::new(m.len(), |i: int| m[i]@)
}

/// A relay message as the JSON of the wire format.
pub open spec fn frame_json(m: RelayMessageV) -> JsonV {
    match m {
        RelayMessageV::Event { sub_id, event } => JsonV::Array(
            seq![JsonV::Str("EVENT"@), JsonV::Str(sub_id), event_json(event)],
        ),
        RelayMessageV::Ack { event_id, accepted, message } => JsonV::Array(
            seq![
                JsonV::Str("OK"@),
                JsonV::Str(event_id),
                JsonV::Bool(accepted),
                JsonV::Str(message),
            ],
        ),
        RelayMessageV::Eose(sub_id) => JsonV::Array(seq![JsonV::Str("EOSE"@), JsonV::Str(sub_id)]),
        RelayMessageV::Closed { sub_id, reason } => JsonV::Array(
            seq![JsonV::Str("CLOSED"@), JsonV::Str(sub_id), JsonV::Str(reason)],
        ),
        RelayMessageV::Notice(text) => JsonV::Array(seq![JsonV::Str("NOTICE"@), JsonV::Str(text)]),
        RelayMessageV::Auth(challenge) => JsonV::Array(
            seq![JsonV::Str("AUTH"@), JsonV::Str(challenge)],
        ),
        RelayMessageV::NegMsg { sub_id, message } => JsonV::Array(
            seq![JsonV::Str("NEG-MSG"@), JsonV::Str(sub_id), JsonV::Str(message)],
        ),
        RelayMessageV::Rpc(j) => j,
    }
}

fn words2(a: &str, b: &str) -> (r: Json)
    ensures
        r@ == JsonV::Array(seq![JsonV::Str(a@), JsonV::Str(b@)]),
{
    let mut v: Vec<Json> = Vec::new();
    v.push(Json::string(a));
    v.push(Json::string(b));
    assert(views(v@) =~= seq![JsonV::Str(a@), JsonV::Str(b@)]);
    Json::array(v)
}

fn words3(a: &str, b: &str, c: &str) -> (r: Json)
    ensures
        r@ == JsonV::Array(seq![JsonV::Str(a@), JsonV::Str(b@), JsonV::Str(c@)]),
{
    let mut v: Vec<Json> = Vec::new();
    v.push(Json::string(a));
    v.push(Json::string(b));
    v.push(Json::string(c));
    assert(views(v@) =~= seq![JsonV::Str(a@), JsonV::Str(b@), JsonV::Str(c@)]);
    Json::array(v)
}

impl RelayMessage {
    /// The message as the JSON of the wire format.
    pub fn to_json(&self) -> (r: Json)
        ensures
            r@ == frame_json(self@),
    {
        match self {
            RelayMessage::Event { sub_id, event } => {
                let mut v: Vec<Json> = Vec::new();
                v.push(Json::string("EVENT"));
                v.push(Json::string(sub_id.as_str()));
                v.push(event.to_json());
                assert(views(v@) =~= frame_json(self@)->Array_0);
                Json::array(v)
            },
            RelayMessage::Ack { event_id, accepted, message } => {
                let mut v: Vec<Json> = Vec::new();
                v.push(Json::string("OK"));
                v.push(Json::string(event_id.as_str()));
                v.push(Json::Bool(*accepted));
                v.push(Json::string(message.as_str()));
                assert(views(v@) =~= frame_json(self@)->Array_0);
                Json::array(v)
            },
            RelayMessage::Eose(sub_id) => words2("EOSE", sub_id.as_str()),
            RelayMessage::Closed { sub_id, reason } => words3(
                "CLOSED",
                sub_id.as_str(),
                reason.as_str(),
            ),
            RelayMessage::Notice(text) => words2("NOTICE", text.as_str()),
            RelayMessage::Auth(challenge) => words2("AUTH", challenge.as_str()),
            RelayMessage::NegMsg { sub_id, message } => words3(
                "NEG-MSG",
                sub_id.as_str(),
                message.as_str(),
            ),
            RelayMessage::Rpc(j) => j.clone(),
        }
    }

    /// The text of the message on the wire.
    pub fn to_text(&self) -> (r: String)
        ensures
            r@ == rendered(frame_json(self@)),
    {
        render_value(&self.to_json())
    }
}

} // verus!
