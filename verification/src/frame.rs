//! Inbound frames: from a text to what it asks of the relay.

use crate::filter::{json_filter, Filter, FilterV};
use crate::json::{copy_json, parse_text, parsed, render_value, rendered, views, Json, JsonV};
use crate::message::{head_is, text_message, ClientMessage, ClientMessageV};
use crate::rpc::{request_of, AdminRequest};
use crate::strict::{normalize_message, strict_message};
use vstd::prelude::*;

verus! {

/// What an inbound text frame asks of the relay.
#[derive(Debug, PartialEq, Eq)]
#[allow(inconsistent_fields)]
pub enum Inbound {
    /// Nothing: a reconciliation frame cut short.
    Ignored,
    /// An administrative request: a JSON object with an id and a method
    /// name.
    Rpc(Json),
    /// Open a reconciliation session.
    NegOpen { sub_id: String, filter: Json, initial: String },
    /// Advance a reconciliation session.
    NegMsg { sub_id: String, message: String },
    /// Drop a reconciliation session.
    NegClose { sub_id: String },
    /// A message that the strict decoder accepted.
    Client(ClientMessage),
    /// A subscription whose filter only the tolerant reader accepts.
    PrefixReq { sub_id: String, filter: Filter },
    /// A frame of no shape that the relay knows, with the reason: that of
    /// the strict decoder where it was asked.
    Invalid(String),
}

/// The mathematical value of an [`Inbound`].
#[allow(inconsistent_fields)]
pub enum InboundV {
    Ignored,
    Rpc(JsonV),
    NegOpen { sub_id: Seq<char>, filter: JsonV, initial: Seq<char> },
    NegMsg { sub_id: Seq<char>, message: Seq<char> },
    NegClose { sub_id: Seq<char> },
    Client(ClientMessageV),
    PrefixReq { sub_id: Seq<char>, filter: FilterV },
    Invalid(Seq<char>),
}

impl View for Inbound {
    type V = InboundV;

    open spec fn view(&self) -> InboundV {
        match self {
            Inbound::Ignored => InboundV::Ignored,
            Inbound::Rpc(j) => InboundV::Rpc(j@),
            Inbound::NegOpen { sub_id, filter, initial } => InboundV::NegOpen {
                sub_id: sub_id@,
                filter: filter@,
                initial: initial@,
            },
            Inbound::NegMsg { sub_id, message } => InboundV::NegMsg {
                sub_id: sub_id@,
                message: message@,
            },
            Inbound::NegClose { sub_id } => InboundV::NegClose { sub_id: sub_id@ },
            Inbound::Client(m) => InboundV::Client(m@),
            Inbound::PrefixReq { sub_id, filter } => InboundV::PrefixReq {
                sub_id: sub_id@,
                filter: filter@,
            },
            Inbound::Invalid(e) => InboundV::Invalid(e@),
        }
    }
}

/// The reason given for a frame whose JSON has no shape of a message.
pub open spec fn no_shape() -> Seq<char> {
    "Invalid format"@
}

/// Where a parsed frame goes before any decoder is asked: an object with an
/// id and a method name is an administrative request, an array is told
/// apart by its first item, and an array that is no reconciliation frame is
/// left to the decoders (`None`). Any other object, an empty array and
/// anything that is neither object nor array is invalid.
pub open spec fn routed(v: JsonV) -> Option<InboundV> {
    match v {
        JsonV::Object(_) => if request_of(v).is_some() {
            Some(InboundV::Rpc(v))
        } else {
            Some(InboundV::Invalid(no_shape()))
        },
        JsonV::Array(a) => if a.len() == 0 {
            Some(InboundV::Invalid(no_shape()))
        } else if a[0].text_or_empty() == "NEG-OPEN"@ {
            if a.len() < 5 {
                Some(InboundV::Ignored)
            } else {
                Some(
                    InboundV::NegOpen {
                        sub_id: a[1].text_or_empty(),
                        filter: a[2],
                        initial: a[4].text_or_empty(),
                    },
                )
            }
        } else if a[0].text_or_empty() == "NEG-MSG"@ {
            if a.len() < 3 {
                Some(InboundV::Ignored)
            } else {
                Some(
                    InboundV::NegMsg {
                        sub_id: a[1].text_or_empty(),
                        message: a[2].text_or_empty(),
                    },
                )
            }
        } else if a[0].text_or_empty() == "NEG-CLOSE"@ {
            if a.len() < 2 {
                Some(InboundV::Ignored)
            } else {
                Some(InboundV::NegClose { sub_id: a[1].text_or_empty() })
            }
        } else {
            None
        },
        _ => Some(InboundV::Invalid(no_shape())),
    }
}

/// Whether a frame that the strict decoder refused is a subscription with
/// its filters wrapped in one array.
pub open spec fn nested_req(a: Seq<JsonV>) -> bool {
    a.len() == 3 && a[0].text_or_empty() == "REQ"@ && a[2] is Array
}

/// A subscription frame with its wrapped filters laid out flat.
pub open spec fn flattened(a: Seq<JsonV>) -> JsonV {
    JsonV::Array(seq![a[0], a[1]] + a[2]->Array_0)
}

/// What becomes of a frame that the strict decoder refused for good: a
/// subscription with a string id and an object as its first filter goes to
/// the tolerant reader; anything else is invalid.
pub open spec fn fallback(a: Seq<JsonV>, error: Seq<char>) -> InboundV {
    if a.len() >= 3 && a[0].text_or_empty() == "REQ"@ && a[1] is Str && a[2] is Object {
        InboundV::PrefixReq { sub_id: a[1]->Str_0, filter: json_filter(a[2]) }
    } else {
        InboundV::Invalid(error)
    }
}

/// What the strict decoder's answer settles: an accepted message goes
/// through; a refused nested subscription is to be tried again flat (`Err`
/// with the flat frame); any other refusal falls back.
pub open spec fn settled(
    a: Seq<JsonV>,
    decoded: Result<ClientMessageV, Seq<char>>,
) -> Result<InboundV, JsonV> {
    match decoded {
        Ok(m) => Ok(InboundV::Client(m)),
        Err(e) => if nested_req(a) {
            Err(flattened(a))
        } else {
            Ok(fallback(a, e))
        },
    }
}

/// What the second try settles: an accepted message goes through, a refusal
/// falls back with the reason of the first refusal.
pub open spec fn resettled(
    a: Seq<JsonV>,
    error: Seq<char>,
    retried: Result<ClientMessageV, Seq<char>>,
) -> InboundV {
    match retried {
        Ok(m) => InboundV::Client(m),
        Err(_) => fallback(a, error),
    }
}

/// The strict decoder's answer to a text: the message it accepts, or its
/// reason for refusing. A message that it accepts and the relay does not
/// act on is refused for its format.
pub open spec fn decoded(text: Seq<char>) -> Result<ClientMessageV, Seq<char>> {
    match strict_message(text) {
        Ok(normal) => match text_message(normal) {
            Some(m) => Ok(m),
            None => Err(no_shape()),
        },
        Err(e) => Err(e),
    }
}

/// What the strict decoder makes of a text that is no JSON: its reason for
/// refusing it.
pub open spec fn unparsed(decoded: Result<ClientMessageV, Seq<char>>) -> InboundV {
    match decoded {
        Ok(m) => InboundV::Client(m),
        Err(e) => InboundV::Invalid(e),
    }
}

/// What a text frame asks of the relay.
pub open spec fn classified(text: Seq<char>) -> InboundV {
    match parsed(text) {
        None => unparsed(decoded(text)),
        Some(v) => match routed(v) {
            Some(x) => x,
            None => match settled(v->Array_0, decoded(text)) {
                Ok(x) => x,
                Err(flat) => resettled(v->Array_0, decoded(text)->Err_0, decoded(rendered(flat))),
            },
        },
    }
}

fn text_at(items: &Vec<Json>, i: usize) -> (r: String)
    requires
        i < items.len(),
    ensures
        r@ == views(items@)[i as int].text_or_empty(),
{
    proof {
        reveal_strlit("");
        assert(""@ =~= Seq::<char>::empty());
    }
    assert(views(items@)[i as int] == items@[i as int]@);
    match items[i].as_str() {
        Some(s) => s.clone(),
        None => String::from_str(""),
    }
}

/// Routes a parsed frame as far as it goes without a decoder.
pub fn route(value: &Json) -> (r: Option<Inbound>)
    ensures
        r.is_some() == routed(value@).is_some(),
        r matches Some(x) ==> Some(x@) == routed(value@),
        r.is_none() ==> value@ is Array && value@->Array_0.len() > 0,
{
    if value.as_object().is_some() {
        if AdminRequest::from_json(value).is_some() {
            return Some(Inbound::Rpc(copy_json(value)));
        }
        return Some(Inbound::Invalid(String::from_str("Invalid format")));
    }
    let a = match value.as_array() {
        Some(a) => a,
        None => {
            return Some(Inbound::Invalid(String::from_str("Invalid format")));
        },
    };
    if a.len() == 0 {
        return Some(Inbound::Invalid(String::from_str("Invalid format")));
    }
    if head_is(a, "NEG-OPEN") {
        if a.len() < 5 {
            return Some(Inbound::Ignored);
        }
        assert(views(a@)[2] == a@[2]@);
        Some(
            Inbound::NegOpen {
                sub_id: text_at(a, 1),
                filter: copy_json(&a[2]),
                initial: text_at(a, 4),
            },
        )
    } else if head_is(a, "NEG-MSG") {
        if a.len() < 3 {
            return Some(Inbound::Ignored);
        }
        Some(Inbound::NegMsg { sub_id: text_at(a, 1), message: text_at(a, 2) })
    } else if head_is(a, "NEG-CLOSE") {
        if a.len() < 2 {
            return Some(Inbound::Ignored);
        }
        Some(Inbound::NegClose { sub_id: text_at(a, 1) })
    } else {
        None
    }
}

fn fall_back(a: &Vec<Json>, error: String) -> (r: Inbound)
    ensures
        r@ == fallback(views(a@), error@),
{
    if a.len() >= 3 && head_is(a, "REQ") {
        assert(views(a@)[1] == a@[1]@);
        assert(views(a@)[2] == a@[2]@);
        match (a[1].as_str(), a[2].as_object()) {
            (Some(s), Some(_)) => Inbound::PrefixReq {
                sub_id: s.clone(),
                filter: Filter::from_json(&a[2]),
            },
            _ => Inbound::Invalid(error),
        }
    } else {
        Inbound::Invalid(error)
    }
}

fn flatten(head: &Json, name: &Json, inner: &Vec<Json>) -> (r: Json)
    ensures
        r@ == JsonV::Array(seq![head@, name@] + views(inner@)),
{
    let mut v: Vec<Json> = Vec::new();
    v.push(copy_json(head));
    v.push(copy_json(name));
    let mut i: usize = 0;
    while i < inner.len()
        invariant
            i <= inner.len(),
            v.len() == i + 2,
            v@[0]@ == head@,
            v@[1]@ == name@,
            forall|k: int| 0 <= k < i ==> v@[k + 2]@ == inner@[k]@,
        decreases inner.len() - i,
    {
        v.push(copy_json(&inner[i]));
        i += 1;
    }
    assert(views(v@) =~= seq![head@, name@] + views(inner@));
    Json::array(v)
}

/// Settles a frame on the strict decoder's answer; `Err` asks for a second
/// try on the flat frame it carries.
pub fn settle(a: &Vec<Json>, answer: Result<ClientMessage, String>) -> (r: Result<Inbound, Json>)
    ensures
        match (r, settled(views(a@), answer_view(answer))) {
            (Ok(x), Ok(y)) => x@ == y,
            (Err(x), Err(y)) => x@ == y,
            _ => false,
        },
{
    match answer {
        Ok(m) => Ok(Inbound::Client(m)),
        Err(e) => {
            if a.len() == 3 && head_is(a, "REQ") {
                assert(views(a@)[0] == a@[0]@);
                assert(views(a@)[1] == a@[1]@);
                assert(views(a@)[2] == a@[2]@);
                if let Some(inner) = a[2].as_array() {
                    return Err(flatten(&a[0], &a[1], inner));
                }
            }
            Ok(fall_back(a, e))
        },
    }
}

/// Settles a frame on the strict decoder's answer to the second try.
pub fn resettle(a: &Vec<Json>, error: String, retried: Result<ClientMessage, String>) -> (r:
    Inbound)
    ensures
        r@ == resettled(views(a@), error@, answer_view(retried)),
{
    match retried {
        Ok(m) => Inbound::Client(m),
        Err(_) => fall_back(a, error),
    }
}

/// The value of a decoder's answer.
pub open spec fn answer_view(r: Result<ClientMessage, String>) -> Result<
    ClientMessageV,
    Seq<char>,
> {
    match r {
        Ok(m) => Ok(m@),
        Err(e) => Err(e@),
    }
}

/// Asks the strict decoder about a text. It refuses every text that is no
/// JSON.
pub fn decode(text: &str) -> (r: Result<ClientMessage, String>)
    ensures
        answer_view(r) == decoded(text@),
        parsed(text@).is_none() ==> r.is_err() && decoded(text@).is_err(),
{
    match normalize_message(text) {
        Ok(normal) => match ClientMessage::from_text(normal.as_str()) {
            Some(m) => Ok(m),
            None => Err(String::from_str("Invalid format")),
        },
        Err(e) => Err(e),
    }
}

/// Settles a text that is no JSON on the strict decoder's answer.
pub fn refuse_unparsed(answer: Result<ClientMessage, String>) -> (r: Inbound)
    ensures
        r@ == unparsed(answer_view(answer)),
{
    match answer {
        Ok(m) => Inbound::Client(m),
        Err(e) => Inbound::Invalid(e),
    }
}

/// Reads an inbound text frame. A text that is no JSON is invalid.
pub fn classify(text: &str) -> (r: Inbound)
    ensures
        r@ == classified(text@),
        parsed(text@).is_none() ==> r is Invalid,
{
    let value = match parse_text(text) {
        Some(v) => v,
        None => {
            return refuse_unparsed(decode(text));
        },
    };
    match route(&value) {
        Some(x) => x,
        None => {
            let a = match value.as_array() {
                Some(a) => a,
                None => {
                    return Inbound::Invalid(String::from_str("Invalid format"));
                },
            };
            let first = decode(text);
            let error = match &first {
                Ok(_) => String::from_str(""),
                Err(e) => e.clone(),
            };
            match settle(a, first) {
                Ok(x) => x,
                Err(flat) => {
                    let again = render_value(&flat);
                    resettle(a, error, decode(again.as_str()))
                },
            }
        },
    }
}

} // verus!
