//! The root of the HTTP surface: upgrade, descriptor or greeting.

use crate::json::{field_views, views, Json, JsonNumberV, JsonV};
use crate::text::{contains, occurs_in};
use vstd::prelude::*;

verus! {

/// What the relay answers to a plain request for its root.
#[derive(Debug, PartialEq, Eq)]
pub enum Page {
    /// Switch to the message protocol.
    Upgrade,
    /// The document that describes the relay.
    Descriptor(Json),
    /// A greeting in plain text.
    Welcome(String),
}

/// The mathematical value of a [`Page`].
pub enum PageV {
    Upgrade,
    Descriptor(JsonV),
    Welcome(Seq<char>),
}

impl View for Page {
    type V = PageV;

    open spec fn view(&self) -> PageV {
        match self {
            Page::Upgrade => PageV::Upgrade,
            Page::Descriptor(j) => PageV::Descriptor(j@),
            Page::Welcome(s) => PageV::Welcome(s@),
        }
    }
}

/// The numbers of the protocol documents that the relay supports.
pub open spec fn supported() -> Seq<u64> {
    seq![1, 9, 11, 15, 17, 20, 23, 33, 40, 42, 51, 56, 62, 65, 66, 77, 86]
}

/// A list of numbers as a JSON array.
pub open spec fn numbers_json(n: Seq<u64>) -> JsonV {
    JsonV::Array(Seq::new(n.len(), |i: int| JsonV::Number(JsonNumberV::Unsigned(n[i]))))
}

/// The document that describes the relay.
pub open spec fn descriptor_json() -> JsonV {
    JsonV::Object(
        seq![
            ("name"@, JsonV::Str("Relay Pleb One"@)),
            ("description"@, JsonV::Str("A Rust-based Nostr Relay"@)),
            ("supported_nips"@, numbers_json(supported())),
            ("software"@, JsonV::Str("relay-rs"@)),
            ("version"@, JsonV::Str("0.1.0"@)),
        ],
    )
}

/// Whether an `Accept` header asks for the descriptor.
pub open spec fn asks_descriptor(accept: Option<Seq<char>>) -> bool {
    match accept {
        Some(a) => occurs_in(a, "application/nostr+json"@),
        None => false,
    }
}

/// The answer to a request for the root: an upgrade goes first, then the
/// descriptor where the `Accept` header asks for it, else the greeting.
pub open spec fn page_for(upgrade: bool, accept: Option<Seq<char>>) -> PageV {
    if upgrade {
        PageV::Upgrade
    } else if asks_descriptor(accept) {
        PageV::Descriptor(descriptor_json())
    } else {
        PageV::Welcome("Welcome to Relay Pleb One (Rust Edition)"@)
    }
}

/// The numbers of the protocol documents that the relay supports.
pub fn supported_nips() -> (r: Vec<u64>)
    ensures
        r@ == supported(),
{
    let mut r: Vec<u64> = Vec::new();
    r.push(1);
    r.push(9);
    r.push(11);
    r.push(15);
    r.push(17);
    r.push(20);
    r.push(23);
    r.push(33);
    r.push(40);
    r.push(42);
    r.push(51);
    r.push(56);
    r.push(62);
    r.push(65);
    r.push(66);
    r.push(77);
    r.push(86);
    assert(r@ =~= supported());
    r
}

/// The document that describes the relay.
pub fn descriptor() -> (r: Json)
    ensures
        r@ == descriptor_json(),
{
    let nips = supported_nips();
    let mut items: Vec<Json> = Vec::new();
    let mut i: usize = 0;
    while i < nips.len()
        invariant
            i <= nips.len(),
            items.len() == i,
            forall|k: int|
                0 <= k < i ==> items@[k]@ == JsonV::Number(JsonNumberV::Unsigned(nips@[k])),
        decreases nips.len() - i,
    {
        items.push(Json::unsigned(nips[i]));
        i += 1;
    }
    assert(views(items@) =~= numbers_json(supported())->Array_0);
    let mut f: Vec<(String, Json)> = Vec::new();
    f.push((String::from_str("name"), Json::string("Relay Pleb One")));
    f.push((String::from_str("description"), Json::string("A Rust-based Nostr Relay")));
    f.push((String::from_str("supported_nips"), Json::array(items)));
    f.push((String::from_str("software"), Json::string("relay-rs")));
    f.push((String::from_str("version"), Json::string("0.1.0")));
    assert(field_views(f@) =~= descriptor_json()->Object_0);
    Json::object(f)
}

/// Answers a request for the root.
pub fn page(upgrade: bool, accept: Option<&str>) -> (r: Page)
    ensures
        r@ == page_for(
            upgrade,
            match accept {
                Some(a) => Some(a@),
                None => None,
            },
        ),
{
    if upgrade {
        return Page::Upgrade;
    }
    let wanted = match accept {
        Some(a) => contains(a, "application/nostr+json"),
        None => false,
    };
    if wanted {
        Page::Descriptor(descriptor())
    } else {
        Page::Welcome(String::from_str("Welcome to Relay Pleb One (Rust Edition)"))
    }
}

} // verus!
