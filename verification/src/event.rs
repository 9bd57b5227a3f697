//! Events: their tags, their JSON, and what is read from both.

use crate::json::{
    field_views, parse_text, parsed, render_value, rendered, views, Json, JsonNumberV, JsonV,
};
use crate::strict::{check_signature, normalize_event, signature_fault, strict_event};
use crate::text::{decimal_i64, parse_i64, str_eq};
use vstd::prelude::*;

verus! {

/// A signed event as it travels on the wire: identifiers and signature in
/// hex, tags as lists of strings whose first string names the tag.
#[derive(Debug, PartialEq, Eq)]
pub struct Event {
    pub id: String,
    pub pubkey: String,
    pub created_at: u64,
    pub kind: u64,
    pub tags: Vec<Vec<String>>,
    pub content: String,
    pub sig: String,
}

/// The mathematical value of an [`Event`].
pub struct EventV {
    pub id: Seq<char>,
    pub pubkey: Seq<char>,
    pub created_at: u64,
    pub kind: u64,
    pub tags: Seq<Seq<Seq<char>>>,
    pub content: Seq<char>,
    pub sig: Seq<char>,
}

impl View for Event {
    type V = EventV;

    open spec fn view(&self) -> EventV {
        EventV {
            id: self.id@,
            pubkey: self.pubkey@,
            created_at: self.created_at,
            kind: self.kind,
            tags: self.tags.deep_view(),
            content: self.content@,
            sig: self.sig@,
        }
    }
}

/// A copy of a list of strings.
pub fn copy_strings(v: &Vec<String>) -> (r: Vec<String>)
    ensures
        r.deep_view() == v.deep_view(),
{
    let mut r: Vec<String> = Vec::new();
    let mut i: usize = 0;
    while i < v.len()
        invariant
            i <= v.len(),
            r.len() == i,
            forall|k: int| 0 <= k < i ==> r@[k]@ == v@[k]@,
        decreases v.len() - i,
    {
        r.push(v[i].clone());
        i += 1;
    }
    assert(r.deep_view() =~= v.deep_view());
    r
}

/// A copy of a list of tags.
pub fn copy_tags(v: &Vec<Vec<String>>) -> (r: Vec<Vec<String>>)
    ensures
        r.deep_view() == v.deep_view(),
{
    let mut r: Vec<Vec<String>> = Vec::new();
    let mut i: usize = 0;
    while i < v.len()
        invariant
            i <= v.len(),
            r.len() == i,
            forall|k: int| 0 <= k < i ==> r@[k].deep_view() == v@[k].deep_view(),
        decreases v.len() - i,
    {
        r.push(copy_strings(&v[i]));
        i += 1;
    }
    assert(r.deep_view() =~= v.deep_view());
    r
}

impl Clone for Event {
    fn clone(&self) -> (r: Event)
        ensures
            r@ == self@,
    {
        Event {
            id: self.id.clone(),
            pubkey: self.pubkey.clone(),
            created_at: self.created_at,
            kind: self.kind,
            tags: copy_tags(&self.tags),
            content: self.content.clone(),
            sig: self.sig.clone(),
        }
    }
}

/// Whether a tag has a name and a value, and the name is `name`.
pub open spec fn tag_has(tag: Seq<Seq<char>>, name: Seq<char>) -> bool {
    tag.len() >= 2 && tag[0] == name
}

/// Whether a kind is addressable: from 30000 up to, not including, 40000.
pub open spec fn addressable(kind: u64) -> bool {
    30000 <= kind < 40000
}

/// The discriminator of an addressable event: the second string of the first
/// tag named `d`, and the empty text where there is no such tag or it has no
/// second string.
pub open spec fn d_tag(tags: Seq<Seq<Seq<char>>>) -> Seq<char>
    decreases tags.len(),
{
    if tags.len() == 0 {
        Seq::empty()
    } else if tags[0].len() >= 1 && tags[0][0] == seq!['d'] {
        if tags[0].len() >= 2 {
            tags[0][1]
        } else {
            Seq::empty()
        }
    } else {
        d_tag(tags.skip(1))
    }
}

/// The values of the tags named `name`, in the order of the tags.
pub open spec fn tag_values(tags: Seq<Seq<Seq<char>>>, name: Seq<char>) -> Seq<Seq<char>>
    decreases tags.len(),
{
    if tags.len() == 0 {
        Seq::empty()
    } else if tag_has(tags.last(), name) {
        tag_values(tags.drop_last(), name).push(tags.last()[1])
    } else {
        tag_values(tags.drop_last(), name)
    }
}

/// The expiration times that the tags give, in the order of the tags: of each
/// tag named `expiration`, the value, where it writes a signed integer.
pub open spec fn expirations(tags: Seq<Seq<Seq<char>>>) -> Seq<i64>
    decreases tags.len(),
{
    if tags.len() == 0 {
        Seq::empty()
    } else if tag_has(tags.last(), "expiration"@) && decimal_i64(tags.last()[1]).is_some() {
        expirations(tags.drop_last()).push(decimal_i64(tags.last()[1]).unwrap())
    } else {
        expirations(tags.drop_last())
    }
}

/// What the expiration tags of an event say at a given time.
#[derive(Debug, Clone, Copy, PartialEq, Eq, Structural)]
pub enum Expiry {
    /// Some expiration time lies in the past.
    Expired,
    /// None does; the last one given, if any, is to be stored.
    Live(Option<i64>),
}

/// Whether some expiration time lies strictly before `now`.
pub open spec fn some_expired(times: Seq<i64>, now: i64) -> bool {
    exists|i: int| 0 <= i < times.len() && times[i] < now
}

/// The verdict on an event's expiration tags at time `now`.
pub open spec fn expiry_at(tags: Seq<Seq<Seq<char>>>, now: i64) -> Expiry {
    let times = expirations(tags);
    if some_expired(times, now) {
        Expiry::Expired
    } else if times.len() == 0 {
        Expiry::Live(None)
    } else {
        Expiry::Live(Some(times.last()))
    }
}

impl Event {
    /// Whether the event's kind is addressable.
    pub fn is_addressable(&self) -> (r: bool)
        ensures
            r == addressable(self@.kind),
    {
        self.kind >= 30000 && self.kind < 40000
    }

    /// The discriminator by which an addressable event is replaced.
    pub fn d_tag_value(&self) -> (r: String)
        ensures
            r@ == d_tag(self@.tags),
    {
        proof {
            reveal_strlit("d");
            reveal_strlit("");
        }
        let ghost tags = self@.tags;
        assert(tags.skip(0) =~= tags);
        let mut i: usize = 0;
        while i < self.tags.len()
            invariant
                i <= self.tags.len(),
                tags == self.tags.deep_view(),
                d_tag(tags) == d_tag(tags.skip(i as int)),
                "d"@ == seq!['d'],
                ""@ == Seq::<char>::empty(),
            decreases self.tags.len() - i,
        {
            let tag = &self.tags[i];
            let ghost rest = tags.skip(i as int);
            assert(rest[0] == tag.deep_view());
            assert(rest.skip(1) =~= tags.skip(i + 1));
            if tag.len() >= 1 && str_eq(tag[0].as_str(), "d") {
                assert(tag.deep_view()[0] == tag@[0]@);
                if tag.len() >= 2 {
                    assert(tag.deep_view()[1] == tag@[1]@);
                    return tag[1].clone();
                } else {
                    return String::from_str("");
                }
            }
            assert(tag.len() >= 1 ==> tag.deep_view()[0] == tag@[0]@);
            i += 1;
        }
        String::from_str("")
    }

    /// The values of the tags named `name`, in the order of the tags.
    pub fn values_of(&self, name: &str) -> (r: Vec<String>)
        ensures
            r.deep_view() == tag_values(self@.tags, name@),
    {
        let ghost tags = self@.tags;
        let mut r: Vec<String> = Vec::new();
        let mut i: usize = 0;
        assert(tags.take(0) =~= Seq::empty());
        while i < self.tags.len()
            invariant
                i <= self.tags.len(),
                tags == self.tags.deep_view(),
                r.deep_view() == tag_values(tags.take(i as int), name@),
            decreases self.tags.len() - i,
        {
            let tag = &self.tags[i];
            let ghost before = r.deep_view();
            let ghost upto = tags.take(i + 1);
            assert(upto.drop_last() =~= tags.take(i as int));
            assert(upto.last() == tag.deep_view());
            if tag.len() >= 2 && str_eq(tag[0].as_str(), name) {
                assert(tag.deep_view()[0] == tag@[0]@);
                assert(tag.deep_view()[1] == tag@[1]@);
                r.push(tag[1].clone());
                assert(r.deep_view() =~= before.push(tag@[1]@));
            } else {
                assert(tag.len() >= 2 ==> tag.deep_view()[0] == tag@[0]@);
                assert(r.deep_view() =~= before);
            }
            i += 1;
        }
        assert(tags.take(i as int) =~= tags);
        r
    }

    /// Whether some tag named `challenge` carries exactly `challenge`.
    pub fn has_challenge(&self, challenge: &str) -> (r: bool)
        ensures
            r == tag_values(self@.tags, "challenge"@).contains(challenge@),
    {
        let values = self.values_of("challenge");
        let mut i: usize = 0;
        while i < values.len()
            invariant
                i <= values.len(),
                values.deep_view() == tag_values(self@.tags, "challenge"@),
                forall|k: int| 0 <= k < i ==> values.deep_view()[k] != challenge@,
            decreases values.len() - i,
        {
            assert(values.deep_view()[i as int] == values@[i as int]@);
            if str_eq(values[i].as_str(), challenge) {
                assert(values.deep_view()[i as int] == challenge@);
                return true;
            }
            i += 1;
        }
        false
    }

    /// Reads the expiration tags against the clock: expired if any time given
    /// lies strictly before `now`, else live with the last time given.
    pub fn expiry(&self, now: i64) -> (r: Expiry)
        ensures
            r == expiry_at(self@.tags, now),
    {
        let values = self.values_of("expiration");
        let ghost tags = self@.tags;
        proof {
            lemma_expirations(tags);
        }
        let ghost texts = values.deep_view();
        let mut last: Option<i64> = None;
        let mut i: usize = 0;
        assert(texts.take(0) =~= Seq::empty());
        while i < values.len()
            invariant
                i <= values.len(),
                texts == values.deep_view(),
                expirations(self@.tags) == parsed_times(texts),
                !some_expired(parsed_times(texts.take(i as int)), now),
                last == last_of(parsed_times(texts.take(i as int))),
            decreases values.len() - i,
        {
            let ghost upto = texts.take(i + 1);
            let ghost before = parsed_times(texts.take(i as int));
            assert(upto.drop_last() =~= texts.take(i as int));
            assert(upto.last() == values@[i as int]@);
            match parse_i64(values[i].as_str()) {
                Some(t) => {
                    assert(parsed_times(upto) == before.push(t));
                    if t < now {
                        proof {
                            assert(parsed_times(upto)[before.len() as int] < now);
                            lemma_parsed_times_prefix(texts, i + 1);
                            let all = parsed_times(texts);
                            assert(all[before.len() as int] == t);
                            assert(some_expired(all, now));
                        }
                        return Expiry::Expired;
                    }
                    assert forall|k: int| 0 <= k < before.push(t).len() implies before.push(
                        t,
                    )[k] >= now by {
                        if k < before.len() {
                            assert(before[k] == before.push(t)[k]);
                        }
                    }
                    last = Some(t);
                },
                None => {
                    assert(parsed_times(upto) == before);
                },
            }
            i += 1;
        }
        assert(texts.take(i as int) =~= texts);
        Expiry::Live(last)
    }
}

/// A list of strings as a JSON array of strings.
pub open spec fn strings_json(items: Seq<Seq<char>>) -> JsonV {
    JsonV::Array(Seq::new(items.len(), |i: int| JsonV::Str(items[i])))
}

/// A list of tags as a JSON array of arrays of strings.
pub open spec fn tags_json(tags: Seq<Seq<Seq<char>>>) -> JsonV {
    JsonV::Array(Seq::new(tags.len(), |i: int| strings_json(tags[i])))
}

/// An event as the JSON object of the wire format, its seven fields in the
/// order id, pubkey, created_at, kind, tags, content, sig.
pub open spec fn event_json(e: EventV) -> JsonV {
    JsonV::Object(
        seq![
            ("id"@, JsonV::Str(e.id)),
            ("pubkey"@, JsonV::Str(e.pubkey)),
            ("created_at"@, JsonV::Number(JsonNumberV::Unsigned(e.created_at))),
            ("kind"@, JsonV::Number(JsonNumberV::Unsigned(e.kind))),
            ("tags"@, tags_json(e.tags)),
            ("content"@, JsonV::Str(e.content)),
            ("sig"@, JsonV::Str(e.sig)),
        ],
    )
}

/// The strings of a JSON array that holds strings only.
pub open spec fn json_strings(j: JsonV) -> Option<Seq<Seq<char>>> {
    match j {
        JsonV::Array(a) => if forall|i: int| 0 <= i < a.len() ==> (#[trigger] a[i]) is Str {
            Some(Seq::new(a.len(), |i: int| a[i]->Str_0))
        } else {
            None
        },
        _ => None,
    }
}

/// The tags of a JSON array that holds arrays of strings only.
pub open spec fn json_tags(j: JsonV) -> Option<Seq<Seq<Seq<char>>>> {
    match j {
        JsonV::Array(a) => if forall|i: int|
            0 <= i < a.len() ==> json_strings(#[trigger] a[i]).is_some() {
            Some(Seq::new(a.len(), |i: int| json_strings(a[i]).unwrap()))
        } else {
            None
        },
        _ => None,
    }
}

/// The text of a field that holds a string.
pub open spec fn text_field(j: JsonV, key: Seq<char>) -> Option<Seq<char>> {
    match j.field(key) {
        Some(JsonV::Str(s)) => Some(s),
        _ => None,
    }
}

/// The number of a field that holds a non-negative integer.
pub open spec fn unsigned_field(j: JsonV, key: Seq<char>) -> Option<u64> {
    match j.field(key) {
        Some(v) => v.unsigned(),
        None => None,
    }
}

/// The tags of a field that holds an array of arrays of strings.
pub open spec fn tags_field(j: JsonV, key: Seq<char>) -> Option<Seq<Seq<Seq<char>>>> {
    match j.field(key) {
        Some(v) => json_tags(v),
        None => None,
    }
}

/// The event that a JSON object writes: each of the seven fields must be
/// there with its type; other fields are ignored.
pub open spec fn json_event(j: JsonV) -> Option<EventV> {
    if text_field(j, "id"@).is_some() && text_field(j, "pubkey"@).is_some() && unsigned_field(
        j,
        "created_at"@,
    ).is_some() && unsigned_field(j, "kind"@).is_some() && tags_field(j, "tags"@).is_some()
        && text_field(j, "content"@).is_some() && text_field(j, "sig"@).is_some() {
        Some(
            EventV {
                id: text_field(j, "id"@).unwrap(),
                pubkey: text_field(j, "pubkey"@).unwrap(),
                created_at: unsigned_field(j, "created_at"@).unwrap(),
                kind: unsigned_field(j, "kind"@).unwrap(),
                tags: tags_field(j, "tags"@).unwrap(),
                content: text_field(j, "content"@).unwrap(),
                sig: text_field(j, "sig"@).unwrap(),
            },
        )
    } else {
        None
    }
}

/// A list of strings written as JSON reads back as itself.
pub proof fn lemma_strings_round_trip(items: Seq<Seq<char>>)
    ensures
        json_strings(strings_json(items)) == Some(items),
{
    let a = strings_json(items)->Array_0;
    assert forall|i: int| 0 <= i < a.len() implies (#[trigger] a[i]) is Str by {}
    assert(Seq::new(a.len(), |i: int| a[i]->Str_0) =~= items);
}

/// A list of tags written as JSON reads back as itself.
pub proof fn lemma_tags_round_trip(tags: Seq<Seq<Seq<char>>>)
    ensures
        json_tags(tags_json(tags)) == Some(tags),
{
    let a = tags_json(tags)->Array_0;
    assert forall|i: int| 0 <= i < a.len() implies json_strings(#[trigger] a[i]) == Some(
        tags[i],
    ) by {
        lemma_strings_round_trip(tags[i]);
    }
    assert(Seq::new(a.len(), |i: int| json_strings(a[i]).unwrap()) =~= tags);
}

/// An event written as the JSON of the wire format reads back as itself.
pub proof fn lemma_event_round_trip(e: EventV)
    ensures
        json_event(event_json(e)) == Some(e),
{
    reveal_strlit("id");
    reveal_strlit("pubkey");
    reveal_strlit("created_at");
    reveal_strlit("kind");
    reveal_strlit("tags");
    reveal_strlit("content");
    reveal_strlit("sig");
    reveal_with_fuel(crate::json::lookup, 8);
    let j = event_json(e);
    let f = j->Object_0;
    assert(f.skip(1)[0] == f[1]);
    assert(f.skip(1).skip(1)[0] == f[2]);
    assert(f.skip(1).skip(1).skip(1)[0] == f[3]);
    assert(f.skip(1).skip(1).skip(1).skip(1)[0] == f[4]);
    assert(f.skip(1).skip(1).skip(1).skip(1).skip(1)[0] == f[5]);
    assert(f.skip(1).skip(1).skip(1).skip(1).skip(1).skip(1)[0] == f[6]);
    assert("id"@.len() == 2 && "pubkey"@.len() == 6 && "created_at"@.len() == 10 && "kind"@.len()
        == 4 && "tags"@.len() == 4 && "content"@.len() == 7 && "sig"@.len() == 3);
    assert("pubkey"@[0] != "created_at"@[0] && "pubkey"@[0] != "kind"@[0] && "pubkey"@[0]
        != "tags"@[0] && "pubkey"@[0] != "content"@[0] && "pubkey"@[0] != "sig"@[0]);
    assert("created_at"@[0] != "kind"@[0] && "created_at"@[0] != "tags"@[0] && "created_at"@[1]
        != "content"@[1] && "created_at"@[0] != "sig"@[0]);
    assert("kind"@[0] != "tags"@[0] && "kind"@[0] != "content"@[0] && "kind"@[0] != "sig"@[0]);
    assert("tags"@[0] != "content"@[0] && "tags"@[0] != "sig"@[0]);
    assert("content"@[0] != "sig"@[0]);
    lemma_tags_round_trip(e.tags);
    assert(j.field("id"@) == Some(f[0].1));
    assert(j.field("pubkey"@) == Some(f[1].1));
    assert(j.field("created_at"@) == Some(f[2].1));
    assert(j.field("kind"@) == Some(f[3].1));
    assert(j.field("tags"@) == Some(f[4].1));
    assert(j.field("content"@) == Some(f[5].1));
    assert(j.field("sig"@) == Some(f[6].1));
}

/// Writes a list of strings as a JSON array.
pub fn strings_to_json(v: &Vec<String>) -> (r: Json)
    ensures
        r@ == strings_json(v.deep_view()),
{
    let mut items: Vec<Json> = Vec::new();
    let mut i: usize = 0;
    while i < v.len()
        invariant
            i <= v.len(),
            items.len() == i,
            forall|k: int| 0 <= k < i ==> items@[k]@ == JsonV::Str(v@[k]@),
        decreases v.len() - i,
    {
        items.push(Json::string(v[i].as_str()));
        i += 1;
    }
    assert(views(items@) =~= strings_json(v.deep_view())->Array_0);
    Json::array(items)
}

/// Writes a list of tags as a JSON array of arrays.
pub fn tags_to_json(v: &Vec<Vec<String>>) -> (r: Json)
    ensures
        r@ == tags_json(v.deep_view()),
{
    let mut items: Vec<Json> = Vec::new();
    let mut i: usize = 0;
    while i < v.len()
        invariant
            i <= v.len(),
            items.len() == i,
            forall|k: int| 0 <= k < i ==> items@[k]@ == strings_json(v@[k].deep_view()),
        decreases v.len() - i,
    {
        items.push(strings_to_json(&v[i]));
        i += 1;
    }
    assert(views(items@) =~= tags_json(v.deep_view())->Array_0);
    Json::array(items)
}

/// Reads a JSON array of strings.
pub fn json_to_strings(j: &Json) -> (r: Option<Vec<String>>)
    ensures
        r.is_some() == json_strings(j@).is_some(),
        r matches Some(v) ==> Some(v.deep_view()) == json_strings(j@),
{
    match j.as_array() {
        None => None,
        Some(a) => {
            let mut v: Vec<String> = Vec::new();
            let mut i: usize = 0;
            while i < a.len()
                invariant
                    i <= a.len(),
                    v.len() == i,
                    j@ == JsonV::Array(views(a@)),
                    forall|k: int| 0 <= k < i ==> views(a@)[k] == JsonV::Str(v@[k]@),
                decreases a.len() - i,
            {
                match a[i].as_str() {
                    Some(s) => {
                        v.push(s.clone());
                    },
                    None => {
                        assert(!(views(a@)[i as int] is Str));
                        return None;
                    },
                }
                i += 1;
            }
            assert(v.deep_view() =~= json_strings(j@).unwrap());
            Some(v)
        },
    }
}

/// Reads a JSON array of arrays of strings.
pub fn json_to_tags(j: &Json) -> (r: Option<Vec<Vec<String>>>)
    ensures
        r.is_some() == json_tags(j@).is_some(),
        r matches Some(v) ==> Some(v.deep_view()) == json_tags(j@),
{
    match j.as_array() {
        None => None,
        Some(a) => {
            let mut v: Vec<Vec<String>> = Vec::new();
            let mut i: usize = 0;
            while i < a.len()
                invariant
                    i <= a.len(),
                    v.len() == i,
                    j@ == JsonV::Array(views(a@)),
                    forall|k: int|
                        0 <= k < i ==> json_strings(views(a@)[k]) == Some(v@[k].deep_view()),
                decreases a.len() - i,
            {
                match json_to_strings(&a[i]) {
                    Some(s) => {
                        v.push(s);
                    },
                    None => {
                        assert(json_strings(views(a@)[i as int]).is_none());
                        return None;
                    },
                }
                i += 1;
            }
            assert(v.deep_view() =~= json_tags(j@).unwrap());
            Some(v)
        },
    }
}

fn get_text(j: &Json, key: &str) -> (r: Option<String>)
    ensures
        r.is_some() == text_field(j@, key@).is_some(),
        r matches Some(s) ==> Some(s@) == text_field(j@, key@),
{
    match j.get(key) {
        Some(v) => match v.as_str() {
            Some(s) => Some(s.clone()),
            None => None,
        },
        None => None,
    }
}

fn get_unsigned(j: &Json, key: &str) -> (r: Option<u64>)
    ensures
        r == unsigned_field(j@, key@),
{
    match j.get(key) {
        Some(v) => v.as_u64(),
        None => None,
    }
}

fn get_tags(j: &Json, key: &str) -> (r: Option<Vec<Vec<String>>>)
    ensures
        r.is_some() == tags_field(j@, key@).is_some(),
        r matches Some(v) ==> Some(v.deep_view()) == tags_field(j@, key@),
{
    match j.get(key) {
        Some(v) => json_to_tags(v),
        None => None,
    }
}

impl Event {
    /// The event as the JSON object of the wire format.
    pub fn to_json(&self) -> (r: Json)
        ensures
            r@ == event_json(self@),
    {
        let mut f: Vec<(String, Json)> = Vec::new();
        f.push((String::from_str("id"), Json::string(self.id.as_str())));
        f.push((String::from_str("pubkey"), Json::string(self.pubkey.as_str())));
        f.push((String::from_str("created_at"), Json::unsigned(self.created_at)));
        f.push((String::from_str("kind"), Json::unsigned(self.kind)));
        f.push((String::from_str("tags"), tags_to_json(&self.tags)));
        f.push((String::from_str("content"), Json::string(self.content.as_str())));
        f.push((String::from_str("sig"), Json::string(self.sig.as_str())));
        assert(field_views(f@) =~= event_json(self@)->Object_0);
        Json::object(f)
    }

    /// Reads an event from the JSON object of the wire format. `None` where a
    /// field is missing or has another type.
    pub fn from_json(j: &Json) -> (r: Option<Event>)
        ensures
            r.is_some() == json_event(j@).is_some(),
            r matches Some(e) ==> Some(e@) == json_event(j@),
    {
        let id = get_text(j, "id");
        let pubkey = get_text(j, "pubkey");
        let created_at = get_unsigned(j, "created_at");
        let kind = get_unsigned(j, "kind");
        let tags = get_tags(j, "tags");
        let content = get_text(j, "content");
        let sig = get_text(j, "sig");
        match (id, pubkey, created_at, kind, tags, content, sig) {
            (
                Some(id),
                Some(pubkey),
                Some(created_at),
                Some(kind),
                Some(tags),
                Some(content),
                Some(sig),
            ) => Some(Event { id, pubkey, created_at, kind, tags, content, sig }),
            _ => None,
        }
    }
}

/// The text of an event on the wire.
pub open spec fn event_text(e: EventV) -> Seq<char> {
    rendered(event_json(e))
}

/// The event that the text of a JSON object writes, if it is one.
pub open spec fn text_event(text: Seq<char>) -> Option<EventV> {
    match parsed(text) {
        Some(j) => json_event(j),
        None => None,
    }
}

/// An event as the protocol library reads it back from its wire text:
/// `None` where the library refuses it.
pub open spec fn restored(e: EventV) -> Option<EventV> {
    match strict_event(event_text(e)) {
        Some(text) => text_event(text),
        None => None,
    }
}

impl Event {
    /// The text of the event on the wire.
    pub fn to_text(&self) -> (r: String)
        ensures
            r@ == event_text(self@),
    {
        render_value(&self.to_json())
    }

    /// Reads an event from the text of a JSON object.
    pub fn from_text(text: &str) -> (r: Option<Event>)
        ensures
            r.is_some() == text_event(text@).is_some(),
            r matches Some(e) ==> Some(e@) == text_event(text@),
    {
        match parse_text(text) {
            Some(j) => Event::from_json(&j),
            None => None,
        }
    }

    /// Checks the event's id and signature. `Err` carries the reason.
    pub fn verify(&self) -> (r: Result<(), String>)
        ensures
            r is Ok <==> signature_fault(event_text(self@)) is None,
            r matches Err(why) ==> signature_fault(event_text(self@)) == Some(why@),
    {
        let text = self.to_text();
        match check_signature(text.as_str()) {
            None => Ok(()),
            Some(why) => Err(why),
        }
    }

    /// Passes the event through the protocol library's decoder, as a stored
    /// row is before it is sent out: `None` where the decoder refuses it.
    pub fn restore(&self) -> (r: Option<Event>)
        ensures
            r.is_some() == restored(self@).is_some(),
            r matches Some(e) ==> Some(e@) == restored(self@),
    {
        let text = self.to_text();
        match normalize_event(text.as_str()) {
            Some(n) => Event::from_text(n.as_str()),
            None => None,
        }
    }
}

/// The signed integers among a run of texts, in their order.
pub open spec fn parsed_times(texts: Seq<Seq<char>>) -> Seq<i64>
    decreases texts.len(),
{
    if texts.len() == 0 {
        Seq::empty()
    } else if decimal_i64(texts.last()).is_some() {
        parsed_times(texts.drop_last()).push(decimal_i64(texts.last()).unwrap())
    } else {
        parsed_times(texts.drop_last())
    }
}

/// The last of a run, if it has one.
pub open spec fn last_of(times: Seq<i64>) -> Option<i64> {
    if times.len() == 0 {
        None
    } else {
        Some(times.last())
    }
}

proof fn lemma_expirations(tags: Seq<Seq<Seq<char>>>)
    ensures
        expirations(tags) == parsed_times(tag_values(tags, "expiration"@)),
    decreases tags.len(),
{
    if tags.len() > 0 {
        lemma_expirations(tags.drop_last());
        if tag_has(tags.last(), "expiration"@) {
            let v = tag_values(tags, "expiration"@);
            assert(v.drop_last() =~= tag_values(tags.drop_last(), "expiration"@));
        }
    }
}

proof fn lemma_parsed_times_prefix(texts: Seq<Seq<char>>, k: int)
    requires
        0 <= k <= texts.len(),
    ensures
        parsed_times(texts.take(k)).is_prefix_of(parsed_times(texts)),
    decreases texts.len() - k,
{
    if k < texts.len() {
        let upto = texts.take(k + 1);
        assert(upto.drop_last() =~= texts.take(k));
        lemma_parsed_times_prefix(texts, k + 1);
    } else {
        assert(texts.take(k) =~= texts);
    }
}

} // verus!
