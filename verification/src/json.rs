//! JSON values, read and written by `serde_json`.

use serde_json::Value;
use vstd::prelude::*;

verus! {

/// A JSON number: a non-negative integer, a negative integer, or anything else
/// kept as its decimal text.
#[derive(Debug, PartialEq, Eq)]
pub enum JsonNumber {
    Unsigned(u64),
    Negative(i64),
    Real(String),
}

/// The mathematical value of a [`JsonNumber`].
pub enum JsonNumberV {
    Unsigned(u64),
    Negative(i64),
    Real(Seq<char>),
}

impl View for JsonNumber {
    type V = JsonNumberV;

    open spec fn view(&self) -> JsonNumberV {
        match self {
            JsonNumber::Unsigned(u) => JsonNumberV::Unsigned(*u),
            JsonNumber::Negative(i) => JsonNumberV::Negative(*i),
            JsonNumber::Real(s) => JsonNumberV::Real(s@),
        }
    }
}

/// A JSON value.
#[derive(Debug, PartialEq, Eq)]
pub enum Json {
    Null,
    Bool(bool),
    Number(JsonNumber),
    Str(String),
    Array(Vec<Json>),
    Object(Vec<(String, Json)>),
}

/// The mathematical value of a [`Json`].
pub enum JsonV {
    Null,
    Bool(bool),
    Number(JsonNumberV),
    Str(Seq<char>),
    Array(Seq<JsonV>),
    Object(Seq<(Seq<char>, JsonV)>),
}

/// The mathematical value of a [`Json`].
pub open spec fn value_of(j: Json) -> JsonV
    decreases j,
{
    match j {
        Json::Null => JsonV::Null,
        Json::Bool(b) => JsonV::Bool(b),
        Json::Number(n) => JsonV::Number(n@),
        Json::Str(s) => JsonV::Str(s@),
        Json::Array(items) => JsonV::Array(
            Seq::new(
                items@.len(),
                |i: int|
                    if 0 <= i < items@.len() {
                        value_of(items@[i])
                    } else {
                        JsonV::Null
                    },
            ),
        ),
        Json::Object(fields) => JsonV::Object(
            Seq::new(
                fields@.len(),
                |i: int|
                    if 0 <= i < fields@.len() {
                        (fields@[i].0@, value_of(fields@[i].1))
                    } else {
                        (Seq::empty(), JsonV::Null)
                    },
            ),
        ),
    }
}

impl View for Json {
    type V = JsonV;

    open spec fn view(&self) -> JsonV {
        value_of(*self)
    }
}

/// The values of a run of [`Json`] items.
pub open spec fn views(items: Seq<Json>) -> Seq<JsonV> {
    Seq::new(items.len(), |i: int| items[i]@)
}

/// The values of a run of object fields.
pub open spec fn field_views(fields: Seq<(String, Json)>) -> Seq<(Seq<char>, JsonV)> {
    Seq::new(fields.len(), |i: int| (fields[i].0@, fields[i].1@))
}

/// The value stored under `key`: that of the first field of that name.
pub open spec fn lookup(fields: Seq<(Seq<char>, JsonV)>, key: Seq<char>) -> Option<JsonV>
    decreases fields.len(),
{
    if fields.len() == 0 {
        None
    } else if fields[0].0 == key {
        Some(fields[0].1)
    } else {
        lookup(fields.skip(1), key)
    }
}

impl JsonV {
    /// The text of a string value.
    pub open spec fn text(self) -> Option<Seq<char>> {
        match self {
            JsonV::Str(s) => Some(s),
            _ => None,
        }
    }

    /// The text of a string value, and the empty text for any other value.
    pub open spec fn text_or_empty(self) -> Seq<char> {
        match self {
            JsonV::Str(s) => s,
            _ => Seq::empty(),
        }
    }

    /// The items of an array.
    pub open spec fn items(self) -> Option<Seq<JsonV>> {
        match self {
            JsonV::Array(a) => Some(a),
            _ => None,
        }
    }

    /// The number held, where it is a non-negative integer.
    pub open spec fn unsigned(self) -> Option<u64> {
        match self {
            JsonV::Number(JsonNumberV::Unsigned(u)) => Some(u),
            _ => None,
        }
    }

    /// The value of a field of an object.
    pub open spec fn field(self, key: Seq<char>) -> Option<JsonV> {
        match self {
            JsonV::Object(f) => lookup(f, key),
            _ => None,
        }
    }
}

/// The view of an array is the run of its items' views.
pub proof fn lemma_array_view(items: Vec<Json>)
    ensures
        Json::Array(items)@ == JsonV::Array(views(items@)),
{
    assert(Json::Array(items)@->Array_0 =~= views(items@));
}

/// The view of an object is the run of its fields' views.
pub proof fn lemma_object_view(fields: Vec<(String, Json)>)
    ensures
        Json::Object(fields)@ == JsonV::Object(field_views(fields@)),
{
    assert(Json::Object(fields)@->Object_0 =~= field_views(fields@));
}

impl Json {
    /// A string value.
    pub fn string(s: &str) -> (r: Json)
        ensures
            r@ == JsonV::Str(s@),
    {
        Json::Str(s.to_owned())
    }

    /// A non-negative integer value.
    pub fn unsigned(n: u64) -> (r: Json)
        ensures
            r@ == JsonV::Number(JsonNumberV::Unsigned(n)),
    {
        Json::Number(JsonNumber::Unsigned(n))
    }

    /// An array of the given items.
    pub fn array(items: Vec<Json>) -> (r: Json)
        ensures
            r@ == JsonV::Array(views(items@)),
    {
        proof {
            lemma_array_view(items);
        }
        Json::Array(items)
    }

    /// An object of the given fields, in their order.
    pub fn object(fields: Vec<(String, Json)>) -> (r: Json)
        ensures
            r@ == JsonV::Object(field_views(fields@)),
    {
        proof {
            lemma_object_view(fields);
        }
        Json::Object(fields)
    }

    /// The text of a string value.
    pub fn as_str(&self) -> (r: Option<&String>)
        ensures
            r.is_some() == self@.text().is_some(),
            r matches Some(s) ==> Some(s@) == self@.text(),
    {
        match self {
            Json::Str(s) => Some(s),
            _ => None,
        }
    }

    /// The items of an array.
    pub fn as_array(&self) -> (r: Option<&Vec<Json>>)
        ensures
            r.is_some() == self@.items().is_some(),
            r matches Some(a) ==> Some(views(a@)) == self@.items(),
    {
        match self {
            Json::Array(a) => {
                proof {
                    lemma_array_view(*a);
                }
                Some(a)
            },
            _ => None,
        }
    }

    /// The fields of an object.
    pub fn as_object(&self) -> (r: Option<&Vec<(String, Json)>>)
        ensures
            r.is_some() == (self@ is Object),
            r matches Some(f) ==> self@ == JsonV::Object(field_views(f@)),
    {
        match self {
            Json::Object(f) => {
                proof {
                    lemma_object_view(*f);
                }
                Some(f)
            },
            _ => None,
        }
    }

    /// The number held, where it is a non-negative integer.
    pub fn as_u64(&self) -> (r: Option<u64>)
        ensures
            r == self@.unsigned(),
    {
        match self {
            Json::Number(JsonNumber::Unsigned(u)) => Some(*u),
            _ => None,
        }
    }

    /// The value of a field of an object: that of the first field named `key`.
    pub fn get(&self, key: &str) -> (r: Option<&Json>)
        ensures
            r.is_some() == self@.field(key@).is_some(),
            r matches Some(j) ==> Some(j@) == self@.field(key@),
    {
        match self {
            Json::Object(f) => {
                proof {
                    lemma_object_view(*f);
                }
                assert(field_views(f@).skip(0) =~= field_views(f@));
                let mut i: usize = 0;
                while i < f.len()
                    invariant
                        i <= f.len(),
                        self@.field(key@) == lookup(field_views(f@).skip(i as int), key@),
                    decreases f.len() - i,
                {
                    let ghost rest = field_views(f@).skip(i as int);
                    assert(rest[0] == field_views(f@)[i as int]);
                    assert(rest.skip(1) =~= field_views(f@).skip(i + 1));
                    if crate::text::str_eq(f[i].0.as_str(), key) {
                        return Some(&f[i].1);
                    }
                    i += 1;
                }
                None
            },
            _ => None,
        }
    }
}

impl Clone for JsonNumber {
    fn clone(&self) -> (r: JsonNumber)
        ensures
            r@ == self@,
    {
        match self {
            JsonNumber::Unsigned(u) => JsonNumber::Unsigned(*u),
            JsonNumber::Negative(i) => JsonNumber::Negative(*i),
            JsonNumber::Real(s) => JsonNumber::Real(s.clone()),
        }
    }
}

/// A copy of a JSON value.
pub fn copy_json(j: &Json) -> (r: Json)
    ensures
        r@ == j@,
    decreases j,
{
    match j {
        Json::Null => Json::Null,
        Json::Bool(b) => Json::Bool(*b),
        Json::Number(n) => Json::Number(n.clone()),
        Json::Str(s) => Json::Str(s.clone()),
        Json::Array(a) => {
            let mut v: Vec<Json> = Vec::new();
            let mut i: usize = 0;
            while i < a.len()
                invariant
                    i <= a.len(),
                    v.len() == i,
                    *j == Json::Array(*a),
                    forall|k: int| 0 <= k < i ==> v@[k]@ == a@[k]@,
                decreases a.len() - i,
            {
                assert(decreases_to!(*j => j->Array_0));
                v.push(copy_json(&a[i]));
                i += 1;
            }
            proof {
                lemma_array_view(*a);
                assert(views(v@) =~= views(a@));
            }
            Json::array(v)
        },
        Json::Object(f) => {
            let mut v: Vec<(String, Json)> = Vec::new();
            let mut i: usize = 0;
            while i < f.len()
                invariant
                    i <= f.len(),
                    v.len() == i,
                    *j == Json::Object(*f),
                    forall|k: int| 0 <= k < i ==> v@[k].0@ == f@[k].0@ && v@[k].1@ == f@[k].1@,
                decreases f.len() - i,
            {
                assert(decreases_to!(*j => j->Object_0));
                v.push((f[i].0.clone(), copy_json(&f[i].1)));
                i += 1;
            }
            proof {
                lemma_object_view(*f);
                assert(field_views(v@) =~= field_views(f@));
            }
            Json::object(v)
        },
    }
}

impl Clone for Json {
    fn clone(&self) -> (r: Json)
        ensures
            r@ == self@,
    {
        copy_json(self)
    }
}

/// `serde_json::Value`, of which the verifier sees nothing inside.
#[verifier::external_type_specification]
#[verifier::external_body]
pub struct ExValue(serde_json::Value);

/// What `serde_json::from_str` makes of a text: the value it parses to,
/// copied variant by variant, or `None` where it reports an error.
pub uninterp spec fn parsed(text: Seq<char>) -> Option<JsonV>;

/// The text that `serde_json::to_string` writes for a value.
pub uninterp spec fn rendered(value: JsonV) -> Seq<char>;

/// Copies a `serde_json::Value` into a [`Json`], variant by variant. A
/// number is what `Number::as_u64` gives, else what `Number::as_i64` gives,
/// else the text from `to_string`. The fields of an object come in the
/// order in which its map hands them out.
#[verifier::external_body]
fn from_value(v: &Value) -> Json {
    match v {
        Value::Null => Json::Null,
        Value::Bool(b) => Json::Bool(*b),
        Value::Number(n) => Json::Number(match (n.as_u64(), n.as_i64()) {
            (Some(u), _) => JsonNumber::Unsigned(u),
            (_, Some(i)) => JsonNumber::Negative(i),
            _ => JsonNumber::Real(n.to_string()),
        }),
        Value::String(s) => Json::Str(s.clone()),
        Value::Array(a) => Json::Array(a.iter().map(from_value).collect()),
        Value::Object(m) => Json::Object(m.iter().map(|(k, x)| (k.clone(), from_value(x))).collect()),
    }
}

/// Copies a [`Json`] into a `serde_json::Value`, variant by variant. A number
/// kept as text is read back with `serde_json::from_str`, and is null where
/// that fails. Of two fields of one name the map keeps the later one.
#[verifier::external_body]
fn to_value(j: &Json) -> Value {
    match j {
        Json::Null => Value::Null,
        Json::Bool(b) => Value::Bool(*b),
        Json::Number(JsonNumber::Unsigned(u)) => Value::from(*u),
        Json::Number(JsonNumber::Negative(i)) => Value::from(*i),
        Json::Number(JsonNumber::Real(s)) => serde_json::from_str(s).unwrap_or_default(),
        Json::Str(s) => Value::String(s.clone()),
        Json::Array(a) => Value::Array(a.iter().map(to_value).collect()),
        Json::Object(f) => Value::Object(f.iter().map(|(k, x)| (k.clone(), to_value(x))).collect()),
    }
}

/// Calls `serde_json::from_str` for a `serde_json::Value`. The result is a
/// function of the text alone and is known to contracts as [`parsed`].
#[verifier::external_body]
pub(crate) fn parse_text(text: &str) -> (r: Option<Json>)
    ensures
        r.is_some() == parsed(text@).is_some(),
        r matches Some(j) ==> Some(j@) == parsed(text@),
{
    match serde_json::from_str::<Value>(text) {
        Ok(v) => Some(from_value(&v)),
        Err(_) => None,
    }
}

/// Calls `serde_json::to_string` on the value. The result is a function of
/// the value alone and is known to contracts as [`rendered`].
#[verifier::external_body]
pub(crate) fn render_value(value: &Json) -> (r: String)
    ensures
        r@ == rendered(value@),
{
    serde_json::to_string(&to_value(value)).unwrap_or_default()
}

impl Json {
    /// Reads a JSON value from a text; `None` where the text is no JSON.
    pub fn parse(text: &str) -> (r: Option<Json>)
        ensures
            r.is_some() == parsed(text@).is_some(),
            r matches Some(j) ==> Some(j@) == parsed(text@),
    {
        parse_text(text)
    }

    /// Writes the value as a text.
    pub fn to_text(&self) -> (r: String)
        ensures
            r@ == rendered(self@),
    {
        render_value(self)
    }
}

} // verus!
