//! Filters and how they match events.

use crate::event::{copy_strings, tag_values, unsigned_field, Event, EventV};
use crate::json::{field_views, views, Json, JsonV};
use crate::text::{chars_of, starts_with, str_eq};
use vstd::prelude::*;

verus! {

/// A tag selector of a filter: the event must carry a tag of this name whose
/// value is one of the values.
#[derive(Debug, PartialEq, Eq)]
pub struct TagSelector {
    pub name: String,
    pub values: Vec<String>,
}

/// The mathematical value of a [`TagSelector`].
pub struct TagSelectorV {
    pub name: Seq<char>,
    pub values: Seq<Seq<char>>,
}

impl View for TagSelector {
    type V = TagSelectorV;

    open spec fn view(&self) -> TagSelectorV {
        TagSelectorV { name: self.name@, values: self.values.deep_view() }
    }
}

/// A filter: a conjunction of the dimensions that are given. An empty list
/// leaves its dimension open. Ids and authors are prefixes.
#[derive(Debug, PartialEq, Eq)]
pub struct Filter {
    pub ids: Vec<String>,
    pub authors: Vec<String>,
    pub kinds: Vec<u64>,
    pub since: Option<u64>,
    pub until: Option<u64>,
    pub limit: Option<u64>,
    pub tags: Vec<TagSelector>,
}

/// The mathematical value of a [`Filter`].
pub struct FilterV {
    pub ids: Seq<Seq<char>>,
    pub authors: Seq<Seq<char>>,
    pub kinds: Seq<u64>,
    pub since: Option<u64>,
    pub until: Option<u64>,
    pub limit: Option<u64>,
    pub tags: Seq<TagSelectorV>,
}

/// The values of a list of selectors.
pub open spec fn selector_views(s: Seq<TagSelector>) -> Seq<TagSelectorV> {
    Seq::new(s.len(), |i: int| s[i]@)
}

impl View for Filter {
    type V = FilterV;

    open spec fn view(&self) -> FilterV {
        FilterV {
            ids: self.ids.deep_view(),
            authors: self.authors.deep_view(),
            kinds: self.kinds@,
            since: self.since,
            until: self.until,
            limit: self.limit,
            tags: selector_views(self.tags@),
        }
    }
}

/// The values of a list of filters.
pub open spec fn filter_views(f: Seq<Filter>) -> Seq<FilterV> {
    Seq::new(f.len(), |i: int| f[i]@)
}

/// Whether one of the prefixes is a prefix of `s`.
pub open spec fn some_prefix(prefixes: Seq<Seq<char>>, s: Seq<char>) -> bool {
    exists|i: int| 0 <= i < prefixes.len() && (#[trigger] prefixes[i]).is_prefix_of(s)
}

/// Whether one of the values is among the candidates.
pub open spec fn some_among(values: Seq<Seq<char>>, candidates: Seq<Seq<char>>) -> bool {
    exists|j: int| 0 <= j < values.len() && candidates.contains(#[trigger] values[j])
}

/// Whether the tags meet a selector: some tag of its name carries one of its
/// values.
pub open spec fn selector_met(sel: TagSelectorV, tags: Seq<Seq<Seq<char>>>) -> bool {
    some_among(sel.values, tag_values(tags, sel.name))
}

/// Whether the tags meet every selector.
pub open spec fn selectors_met(sels: Seq<TagSelectorV>, tags: Seq<Seq<Seq<char>>>) -> bool {
    forall|k: int| 0 <= k < sels.len() ==> selector_met(#[trigger] sels[k], tags)
}

/// Whether a filter matches an event: every dimension that is given does.
pub open spec fn filter_matches(f: FilterV, e: EventV) -> bool {
    &&& f.ids.len() == 0 || some_prefix(f.ids, e.id)
    &&& f.authors.len() == 0 || some_prefix(f.authors, e.pubkey)
    &&& f.kinds.len() == 0 || f.kinds.contains(e.kind)
    &&& f.since matches Some(t) ==> e.created_at >= t
    &&& f.until matches Some(t) ==> e.created_at <= t
    &&& selectors_met(f.tags, e.tags)
}

/// Whether one of the filters matches the event.
pub open spec fn any_matches(filters: Seq<FilterV>, e: EventV) -> bool {
    exists|i: int| 0 <= i < filters.len() && filter_matches(#[trigger] filters[i], e)
}

fn has_prefix_among(prefixes: &Vec<String>, s: &str) -> (r: bool)
    ensures
        r == some_prefix(prefixes.deep_view(), s@),
{
    let mut i: usize = 0;
    while i < prefixes.len()
        invariant
            i <= prefixes.len(),
            forall|k: int| 0 <= k < i ==> !(#[trigger] prefixes.deep_view()[k]).is_prefix_of(s@),
        decreases prefixes.len() - i,
    {
        assert(prefixes.deep_view()[i as int] == prefixes@[i as int]@);
        if starts_with(s, prefixes[i].as_str()) {
            return true;
        }
        i += 1;
    }
    false
}

fn has_text(list: &Vec<String>, s: &str) -> (r: bool)
    ensures
        r == list.deep_view().contains(s@),
{
    let mut i: usize = 0;
    while i < list.len()
        invariant
            i <= list.len(),
            forall|k: int| 0 <= k < i ==> list.deep_view()[k] != s@,
        decreases list.len() - i,
    {
        assert(list.deep_view()[i as int] == list@[i as int]@);
        if str_eq(list[i].as_str(), s) {
            return true;
        }
        i += 1;
    }
    false
}

fn has_kind(kinds: &Vec<u64>, kind: u64) -> (r: bool)
    ensures
        r == kinds@.contains(kind),
{
    let mut i: usize = 0;
    while i < kinds.len()
        invariant
            i <= kinds.len(),
            forall|k: int| 0 <= k < i ==> kinds@[k] != kind,
        decreases kinds.len() - i,
    {
        if kinds[i] == kind {
            return true;
        }
        i += 1;
    }
    false
}

impl TagSelector {
    /// Whether the event meets the selector.
    pub fn met_by(&self, e: &Event) -> (r: bool)
        ensures
            r == selector_met(self@, e@.tags),
    {
        let candidates = e.values_of(self.name.as_str());
        let mut j: usize = 0;
        while j < self.values.len()
            invariant
                j <= self.values.len(),
                candidates.deep_view() == tag_values(e@.tags, self@.name),
                forall|k: int|
                    0 <= k < j ==> !candidates.deep_view().contains(
                        #[trigger] self.values.deep_view()[k],
                    ),
            decreases self.values.len() - j,
        {
            assert(self.values.deep_view()[j as int] == self.values@[j as int]@);
            if has_text(&candidates, self.values[j].as_str()) {
                return true;
            }
            j += 1;
        }
        false
    }
}

impl Clone for TagSelector {
    fn clone(&self) -> (r: TagSelector)
        ensures
            r@ == self@,
    {
        TagSelector { name: self.name.clone(), values: copy_strings(&self.values) }
    }
}

impl Filter {
    /// The filter that leaves every dimension open.
    pub fn new() -> (r: Filter)
        ensures
            r@ == (FilterV {
                ids: Seq::empty(),
                authors: Seq::empty(),
                kinds: Seq::empty(),
                since: None,
                until: None,
                limit: None,
                tags: Seq::empty(),
            }),
    {
        let r = Filter {
            ids: Vec::new(),
            authors: Vec::new(),
            kinds: Vec::new(),
            since: None,
            until: None,
            limit: None,
            tags: Vec::new(),
        };
        assert(r@.ids =~= Seq::empty());
        assert(r@.authors =~= Seq::empty());
        assert(r@.tags =~= Seq::empty());
        r
    }

    /// Whether the filter matches the event.
    pub fn matches(&self, e: &Event) -> (r: bool)
        ensures
            r == filter_matches(self@, e@),
    {
        if self.ids.len() > 0 && !has_prefix_among(&self.ids, e.id.as_str()) {
            return false;
        }
        if self.authors.len() > 0 && !has_prefix_among(&self.authors, e.pubkey.as_str()) {
            return false;
        }
        if self.kinds.len() > 0 && !has_kind(&self.kinds, e.kind) {
            return false;
        }
        if let Some(t) = self.since {
            if e.created_at < t {
                return false;
            }
        }
        if let Some(t) = self.until {
            if e.created_at > t {
                return false;
            }
        }
        let mut k: usize = 0;
        while k < self.tags.len()
            invariant
                k <= self.tags.len(),
                forall|i: int| 0 <= i < k ==> selector_met(#[trigger] self@.tags[i], e@.tags),
            decreases self.tags.len() - k,
        {
            assert(self@.tags[k as int] == self.tags@[k as int]@);
            if !self.tags[k].met_by(e) {
                return false;
            }
            k += 1;
        }
        true
    }
}

impl Clone for Filter {
    fn clone(&self) -> (r: Filter)
        ensures
            r@ == self@,
    {
        let mut tags: Vec<TagSelector> = Vec::new();
        let mut i: usize = 0;
        while i < self.tags.len()
            invariant
                i <= self.tags.len(),
                tags.len() == i,
                forall|k: int| 0 <= k < i ==> tags@[k]@ == self.tags@[k]@,
            decreases self.tags.len() - i,
        {
            tags.push(self.tags[i].clone());
            i += 1;
        }
        let mut kinds: Vec<u64> = Vec::new();
        let mut j: usize = 0;
        while j < self.kinds.len()
            invariant
                j <= self.kinds.len(),
                kinds@ == self.kinds@.take(j as int),
            decreases self.kinds.len() - j,
        {
            kinds.push(self.kinds[j]);
            assert(kinds@ =~= self.kinds@.take(j + 1));
            j += 1;
        }
        assert(kinds@ =~= self.kinds@);
        assert(selector_views(tags@) =~= selector_views(self.tags@));
        Filter {
            ids: copy_strings(&self.ids),
            authors: copy_strings(&self.authors),
            kinds,
            since: self.since,
            until: self.until,
            limit: self.limit,
            tags,
        }
    }
}

/// The strings among the items of a JSON array, in their order.
pub open spec fn strings_among(items: Seq<JsonV>) -> Seq<Seq<char>>
    decreases items.len(),
{
    if items.len() == 0 {
        Seq::empty()
    } else if items.last() is Str {
        strings_among(items.drop_last()).push(items.last()->Str_0)
    } else {
        strings_among(items.drop_last())
    }
}

/// The non-negative integers among the items of a JSON array, in their order.
pub open spec fn unsigned_among(items: Seq<JsonV>) -> Seq<u64>
    decreases items.len(),
{
    if items.len() == 0 {
        Seq::empty()
    } else if items.last().unsigned().is_some() {
        unsigned_among(items.drop_last()).push(items.last().unsigned().unwrap())
    } else {
        unsigned_among(items.drop_last())
    }
}

/// The items of the array that an object holds under `key`; none where it
/// holds no array there.
pub open spec fn array_field(j: JsonV, key: Seq<char>) -> Seq<JsonV> {
    match j.field(key) {
        Some(JsonV::Array(a)) => a,
        _ => Seq::empty(),
    }
}

/// Whether a character is an ASCII letter.
pub open spec fn is_letter(c: char) -> bool {
    ('a' <= c <= 'z') || ('A' <= c <= 'Z')
}

/// The tag name that a filter key selects: `#` and one letter name the tag of
/// that letter.
pub open spec fn selector_name(key: Seq<char>) -> Option<Seq<char>> {
    if key.len() == 2 && key[0] == '#' && is_letter(key[1]) {
        Some(key.subrange(1, 2))
    } else {
        None
    }
}

/// The tag selectors among the fields of a filter object, in their order:
/// each field whose key selects a tag and whose value is an array.
pub open spec fn selectors_among(fields: Seq<(Seq<char>, JsonV)>) -> Seq<TagSelectorV>
    decreases fields.len(),
{
    if fields.len() == 0 {
        Seq::empty()
    } else if selector_name(fields.last().0).is_some() && fields.last().1 is Array {
        selectors_among(fields.drop_last()).push(
            TagSelectorV {
                name: selector_name(fields.last().0).unwrap(),
                values: strings_among(fields.last().1->Array_0),
            },
        )
    } else {
        selectors_among(fields.drop_last())
    }
}

/// The fields of an object; none for any other value.
pub open spec fn fields_of(j: JsonV) -> Seq<(Seq<char>, JsonV)> {
    match j {
        JsonV::Object(f) => f,
        _ => Seq::empty(),
    }
}

/// The filter that a JSON object writes, read with tolerance: what is
/// missing or of another type leaves its dimension open, and entries of
/// another type are passed over.
pub open spec fn json_filter(j: JsonV) -> FilterV {
    FilterV {
        ids: strings_among(array_field(j, "ids"@)),
        authors: strings_among(array_field(j, "authors"@)),
        kinds: unsigned_among(array_field(j, "kinds"@)),
        since: unsigned_field(j, "since"@),
        until: unsigned_field(j, "until"@),
        limit: unsigned_field(j, "limit"@),
        tags: selectors_among(fields_of(j)),
    }
}

fn collect_strings(items: &Vec<Json>) -> (r: Vec<String>)
    ensures
        r.deep_view() == strings_among(views(items@)),
{
    let ghost all = views(items@);
    let mut r: Vec<String> = Vec::new();
    let mut i: usize = 0;
    assert(all.take(0) =~= Seq::empty());
    while i < items.len()
        invariant
            i <= items.len(),
            all == views(items@),
            r.deep_view() == strings_among(all.take(i as int)),
        decreases items.len() - i,
    {
        let ghost before = r.deep_view();
        let ghost upto = all.take(i + 1);
        assert(upto.drop_last() =~= all.take(i as int));
        assert(upto.last() == items@[i as int]@);
        match items[i].as_str() {
            Some(s) => {
                r.push(s.clone());
                assert(r.deep_view() =~= before.push(s@));
            },
            None => {
                assert(r.deep_view() =~= before);
            },
        }
        i += 1;
    }
    assert(all.take(i as int) =~= all);
    r
}

fn collect_unsigned(items: &Vec<Json>) -> (r: Vec<u64>)
    ensures
        r@ == unsigned_among(views(items@)),
{
    let ghost all = views(items@);
    let mut r: Vec<u64> = Vec::new();
    let mut i: usize = 0;
    assert(all.take(0) =~= Seq::empty());
    while i < items.len()
        invariant
            i <= items.len(),
            all == views(items@),
            r@ == unsigned_among(all.take(i as int)),
        decreases items.len() - i,
    {
        let ghost upto = all.take(i + 1);
        assert(upto.drop_last() =~= all.take(i as int));
        assert(upto.last() == items@[i as int]@);
        match items[i].as_u64() {
            Some(u) => {
                r.push(u);
            },
            None => {},
        }
        i += 1;
    }
    assert(all.take(i as int) =~= all);
    r
}

fn strings_at(j: &Json, key: &str) -> (r: Vec<String>)
    ensures
        r.deep_view() == strings_among(array_field(j@, key@)),
{
    match j.get(key) {
        Some(v) => match v.as_array() {
            Some(a) => collect_strings(a),
            None => {
                let r: Vec<String> = Vec::new();
                assert(r.deep_view() =~= Seq::empty());
                r
            },
        },
        None => {
            let r: Vec<String> = Vec::new();
            assert(r.deep_view() =~= Seq::empty());
            r
        },
    }
}

fn unsigned_at(j: &Json, key: &str) -> (r: Vec<u64>)
    ensures
        r@ == unsigned_among(array_field(j@, key@)),
{
    match j.get(key) {
        Some(v) => match v.as_array() {
            Some(a) => collect_unsigned(a),
            None => Vec::new(),
        },
        None => Vec::new(),
    }
}

fn number_at(j: &Json, key: &str) -> (r: Option<u64>)
    ensures
        r == unsigned_field(j@, key@),
{
    match j.get(key) {
        Some(v) => v.as_u64(),
        None => None,
    }
}

fn name_of_key(key: &str) -> (r: Option<String>)
    ensures
        r.is_some() == selector_name(key@).is_some(),
        r matches Some(n) ==> Some(n@) == selector_name(key@),
{
    let c = chars_of(key);
    if c.len() != 2 || c[0] != '#' {
        return None;
    }
    let l = c[1];
    if (l >= 'a' && l <= 'z') || (l >= 'A' && l <= 'Z') {
        Some(key.substring_char(1, 2).to_owned())
    } else {
        None
    }
}

fn collect_selectors(fields: &Vec<(String, Json)>) -> (r: Vec<TagSelector>)
    ensures
        selector_views(r@) == selectors_among(field_views(fields@)),
{
    let ghost all = field_views(fields@);
    let mut r: Vec<TagSelector> = Vec::new();
    let mut i: usize = 0;
    assert(all.take(0) =~= Seq::empty());
    assert(selector_views(r@) =~= Seq::empty());
    while i < fields.len()
        invariant
            i <= fields.len(),
            all == field_views(fields@),
            selector_views(r@) == selectors_among(all.take(i as int)),
        decreases fields.len() - i,
    {
        let ghost before = selector_views(r@);
        let ghost upto = all.take(i + 1);
        assert(upto.drop_last() =~= all.take(i as int));
        assert(upto.last() == (fields@[i as int].0@, fields@[i as int].1@));
        match (name_of_key(fields[i].0.as_str()), fields[i].1.as_array()) {
            (Some(name), Some(a)) => {
                let s = TagSelector { name, values: collect_strings(a) };
                r.push(s);
                assert(selector_views(r@) =~= before.push(s@));
            },
            _ => {
                assert(selector_views(r@) =~= before);
            },
        }
        i += 1;
    }
    assert(all.take(i as int) =~= all);
    r
}

impl Filter {
    /// Reads a filter from a JSON object, with tolerance.
    pub fn from_json(j: &Json) -> (r: Filter)
        ensures
            r@ == json_filter(j@),
    {
        let tags = match j.as_object() {
            Some(f) => collect_selectors(f),
            None => {
                let t: Vec<TagSelector> = Vec::new();
                assert(selector_views(t@) =~= Seq::empty());
                t
            },
        };
        Filter {
            ids: strings_at(j, "ids"),
            authors: strings_at(j, "authors"),
            kinds: unsigned_at(j, "kinds"),
            since: number_at(j, "since"),
            until: number_at(j, "until"),
            limit: number_at(j, "limit"),
            tags,
        }
    }
}

/// Whether one of the filters matches the event.
pub fn matches_any(filters: &Vec<Filter>, e: &Event) -> (r: bool)
    ensures
        r == any_matches(filter_views(filters@), e@),
{
    let mut i: usize = 0;
    while i < filters.len()
        invariant
            i <= filters.len(),
            forall|k: int|
                0 <= k < i ==> !filter_matches(#[trigger] filter_views(filters@)[k], e@),
        decreases filters.len() - i,
    {
        assert(filter_views(filters@)[i as int] == filters@[i as int]@);
        if filters[i].matches(e) {
            return true;
        }
        i += 1;
    }
    false
}

/// A copy of a list of filters.
pub fn copy_filters(filters: &Vec<Filter>) -> (r: Vec<Filter>)
    ensures
        filter_views(r@) == filter_views(filters@),
{
    let mut r: Vec<Filter> = Vec::new();
    let mut i: usize = 0;
    while i < filters.len()
        invariant
            i <= filters.len(),
            r.len() == i,
            forall|k: int| 0 <= k < i ==> r@[k]@ == filters@[k]@,
        decreases filters.len() - i,
    {
        r.push(filters[i].clone());
        i += 1;
    }
    assert(filter_views(r@) =~= filter_views(filters@));
    r
}

} // verus!
