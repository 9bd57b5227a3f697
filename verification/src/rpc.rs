//! Administration over JSON-RPC.

use crate::cache::{dropped, invalidate};
use crate::event::{strings_json, strings_to_json, text_field};
use crate::ingest::{Backend, BackendV};
use crate::json::{copy_json, field_views, views, Json, JsonNumber, JsonNumberV, JsonV};
use crate::text::str_eq;
use crate::users::{active_keys, allowed, found, with_status};
use crate::whitelist::{cache_key_of, WhitelistStatus};
use vstd::prelude::*;

verus! {

/// The error code for a caller who is no administrator.
pub const CODE_UNAUTHORIZED: i64 = -32000;

/// The error code for a call that cannot be made.
pub const CODE_NO_METHOD: i64 = -32601;

/// An administrative request as it is read from a JSON object.
#[derive(Debug, PartialEq, Eq)]
pub struct AdminRequest {
    /// The id to answer under, as it came.
    pub id: Json,
    /// The name of the method.
    pub method: String,
    /// The first parameter, where it is a string.
    pub param: Option<String>,
}

/// The mathematical value of an [`AdminRequest`].
pub struct AdminRequestV {
    pub id: JsonV,
    pub method: Seq<char>,
    pub param: Option<Seq<char>>,
}

impl View for AdminRequest {
    type V = AdminRequestV;

    open spec fn view(&self) -> AdminRequestV {
        AdminRequestV {
            id: self.id@,
            method: self.method@,
            param: match self.param {
                Some(p) => Some(p@),
                None => None,
            },
        }
    }
}

/// What an administrator may ask for.
#[derive(Debug, PartialEq, Eq)]
pub enum AdminCall {
    /// The keys of the active users.
    ListAllowed,
    /// Make a user active.
    Allow(String),
    /// Revoke a user.
    Ban(String),
}

/// The mathematical value of an [`AdminCall`].
pub enum AdminCallV {
    ListAllowed,
    Allow(Seq<char>),
    Ban(Seq<char>),
}

impl View for AdminCall {
    type V = AdminCallV;

    open spec fn view(&self) -> AdminCallV {
        match self {
            AdminCall::ListAllowed => AdminCallV::ListAllowed,
            AdminCall::Allow(p) => AdminCallV::Allow(p@),
            AdminCall::Ban(p) => AdminCallV::Ban(p@),
        }
    }
}

/// The first parameter of a request, where the parameters are an array that
/// begins with a string.
pub open spec fn first_param(j: JsonV) -> Option<Seq<char>> {
    match j.field("params"@) {
        Some(JsonV::Array(a)) => if a.len() > 0 && a[0] is Str {
            Some(a[0]->Str_0)
        } else {
            None
        },
        _ => None,
    }
}

/// The request that a JSON object writes: it needs an id and a method name.
pub open spec fn request_of(j: JsonV) -> Option<AdminRequestV> {
    if j.field("id"@).is_some() && text_field(j, "method"@).is_some() {
        Some(
            AdminRequestV {
                id: j.field("id"@).unwrap(),
                method: text_field(j, "method"@).unwrap(),
                param: first_param(j),
            },
        )
    } else {
        None
    }
}

/// The call that a request names, or the message of the error.
pub open spec fn call_of(r: AdminRequestV) -> Result<AdminCallV, Seq<char>> {
    if r.method == "list_allowed_users"@ {
        Ok(AdminCallV::ListAllowed)
    } else if r.method == "allow_user"@ {
        match r.param {
            Some(p) => Ok(AdminCallV::Allow(p)),
            None => Err("Missing pubkey param"@),
        }
    } else if r.method == "ban_user"@ {
        match r.param {
            Some(p) => Ok(AdminCallV::Ban(p)),
            None => Err("Missing pubkey param"@),
        }
    } else {
        Err("Method not found"@)
    }
}

/// The response that reports an error.
pub open spec fn error_response(id: JsonV, code: i64, message: Seq<char>) -> JsonV {
    JsonV::Object(
        seq![
            ("jsonrpc"@, JsonV::Str("2.0"@)),
            ("id"@, id),
            (
                "error"@,
                JsonV::Object(
                    seq![
                        ("code"@, JsonV::Number(JsonNumberV::Negative(code))),
                        ("message"@, JsonV::Str(message)),
                    ],
                ),
            ),
        ],
    )
}

/// The response that carries a result.
pub open spec fn result_response(id: JsonV, result: JsonV) -> JsonV {
    JsonV::Object(seq![("jsonrpc"@, JsonV::Str("2.0"@)), ("id"@, id), ("result"@, result)])
}

/// What is decided on a request before the backend is touched: the call to
/// make, or the response that refuses it. A caller who is no administrator
/// is refused whatever they ask.
pub open spec fn decided(r: AdminRequestV, is_admin: bool) -> Result<AdminCallV, JsonV> {
    if !is_admin {
        Err(error_response(r.id, CODE_UNAUTHORIZED, "Unauthorized: Admin access required"@))
    } else {
        match call_of(r) {
            Ok(c) => Ok(c),
            Err(m) => Err(error_response(r.id, CODE_NO_METHOD, m)),
        }
    }
}

/// Whether the caller is an administrator: they have authenticated, and
/// their row says so.
pub open spec fn caller_is_admin(
    users: Seq<crate::whitelist::UserV>,
    auth: Option<Seq<char>>,
) -> bool {
    match auth {
        Some(p) => match found(users, p) {
            Some(u) => u.is_admin,
            None => false,
        },
        None => false,
    }
}

/// The backend after a call.
pub open spec fn called(s: BackendV, c: AdminCallV) -> BackendV {
    match c {
        AdminCallV::ListAllowed => s,
        AdminCallV::Allow(p) => BackendV {
            users: allowed(s.users, p),
            cache: dropped(s.cache, cache_key_of(p)),
            ..s
        },
        AdminCallV::Ban(p) => BackendV {
            users: with_status(s.users, p, WhitelistStatus::Revoked),
            cache: dropped(s.cache, cache_key_of(p)),
            ..s
        },
    }
}

/// The result of a call on the backend.
pub open spec fn result_of(s: BackendV, c: AdminCallV) -> JsonV {
    match c {
        AdminCallV::ListAllowed => strings_json(active_keys(s.users)),
        _ => JsonV::Bool(true),
    }
}

/// What an administrative request does to the backend in memory and what is
/// answered; no answer where the object is no request.
pub open spec fn administered(s: BackendV, auth: Option<Seq<char>>, j: JsonV) -> (
    BackendV,
    Option<JsonV>,
) {
    match request_of(j) {
        None => (s, None),
        Some(r) => match decided(r, caller_is_admin(s.users, auth)) {
            Err(response) => (s, Some(response)),
            Ok(c) => (called(s, c), Some(result_response(r.id, result_of(s, c)))),
        },
    }
}

impl AdminRequest {
    /// Reads a request from a JSON object; `None` where it has no id or no
    /// method name.
    pub fn from_json(j: &Json) -> (r: Option<AdminRequest>)
        ensures
            r.is_some() == request_of(j@).is_some(),
            r matches Some(q) ==> Some(q@) == request_of(j@),
    {
        let id = match j.get("id") {
            Some(id) => copy_json(id),
            None => {
                return None;
            },
        };
        let method = match j.get("method") {
            Some(m) => match m.as_str() {
                Some(s) => s.clone(),
                None => {
                    return None;
                },
            },
            None => {
                return None;
            },
        };
        let param = match j.get("params") {
            Some(p) => match p.as_array() {
                Some(a) => if a.len() > 0 {
                    assert(views(a@)[0] == a@[0]@);
                    match a[0].as_str() {
                        Some(s) => Some(s.clone()),
                        None => None,
                    }
                } else {
                    None
                },
                None => None,
            },
            None => None,
        };
        Some(AdminRequest { id, method, param })
    }

    /// The call that the request names, or the message of the error.
    pub fn call(&self) -> (r: Result<AdminCall, String>)
        ensures
            match (r, call_of(self@)) {
                (Ok(c), Ok(d)) => c@ == d,
                (Err(m), Err(n)) => m@ == n,
                _ => false,
            },
    {
        if str_eq(self.method.as_str(), "list_allowed_users") {
            Ok(AdminCall::ListAllowed)
        } else if str_eq(self.method.as_str(), "allow_user") {
            match &self.param {
                Some(p) => Ok(AdminCall::Allow(p.clone())),
                None => Err(String::from_str("Missing pubkey param")),
            }
        } else if str_eq(self.method.as_str(), "ban_user") {
            match &self.param {
                Some(p) => Ok(AdminCall::Ban(p.clone())),
                None => Err(String::from_str("Missing pubkey param")),
            }
        } else {
            Err(String::from_str("Method not found"))
        }
    }

    /// Decides on the request before the backend is touched.
    pub fn decide(&self, is_admin: bool) -> (r: Result<AdminCall, Json>)
        ensures
            match (r, decided(self@, is_admin)) {
                (Ok(c), Ok(d)) => c@ == d,
                (Err(m), Err(n)) => m@ == n,
                _ => false,
            },
    {
        if !is_admin {
            return Err(
                failure(&self.id, CODE_UNAUTHORIZED, "Unauthorized: Admin access required"),
            );
        }
        match self.call() {
            Ok(c) => Ok(c),
            Err(m) => Err(failure(&self.id, CODE_NO_METHOD, m.as_str())),
        }
    }
}

/// The response that reports an error.
pub fn failure(id: &Json, code: i64, message: &str) -> (r: Json)
    ensures
        r@ == error_response(id@, code, message@),
{
    let mut inner: Vec<(String, Json)> = Vec::new();
    inner.push((String::from_str("code"), Json::Number(JsonNumber::Negative(code))));
    inner.push((String::from_str("message"), Json::string(message)));
    assert(field_views(inner@) =~= seq![
        ("code"@, JsonV::Number(JsonNumberV::Negative(code))),
        ("message"@, JsonV::Str(message@)),
    ]);
    let mut outer: Vec<(String, Json)> = Vec::new();
    outer.push((String::from_str("jsonrpc"), Json::string("2.0")));
    outer.push((String::from_str("id"), copy_json(id)));
    outer.push((String::from_str("error"), Json::object(inner)));
    assert(field_views(outer@) =~= error_response(id@, code, message@)->Object_0);
    Json::object(outer)
}

/// The response that carries a result.
pub fn success(id: &Json, outcome: Json) -> (r: Json)
    ensures
        r@ == result_response(id@, outcome@),
{
    let mut outer: Vec<(String, Json)> = Vec::new();
    outer.push((String::from_str("jsonrpc"), Json::string("2.0")));
    outer.push((String::from_str("id"), copy_json(id)));
    outer.push((String::from_str("result"), outcome));
    assert(field_views(outer@) =~= result_response(id@, outcome@)->Object_0);
    Json::object(outer)
}

/// The result of the call that lists the active users.
pub fn listing(keys: &Vec<String>) -> (r: Json)
    ensures
        r@ == strings_json(keys.deep_view()),
{
    strings_to_json(keys)
}

impl Backend {
    /// Whether the caller is an administrator.
    pub fn is_admin(&self, auth: &Option<String>) -> (r: bool)
        ensures
            r == caller_is_admin(
                self@.users,
                match auth {
                    Some(p) => Some(p@),
                    None => None,
                },
            ),
    {
        match auth {
            Some(p) => match self.users.find(p.as_str()) {
                Some(u) => u.is_admin,
                None => false,
            },
            None => false,
        }
    }

    /// Makes a call and returns its result.
    pub fn call(&mut self, c: &AdminCall) -> (r: Json)
        ensures
            final(self)@ == called(old(self)@, c@),
            r@ == result_of(old(self)@, c@),
            old(self).wf() ==> final(self).wf(),
    {
        match c {
            AdminCall::ListAllowed => listing(&self.users.list_active()),
            AdminCall::Allow(p) => {
                self.users.allow(p.as_str());
                invalidate(&mut self.cache, p.as_str());
                Json::Bool(true)
            },
            AdminCall::Ban(p) => {
                self.users.set_status(p.as_str(), WhitelistStatus::Revoked);
                invalidate(&mut self.cache, p.as_str());
                Json::Bool(true)
            },
        }
    }

    /// Serves an administrative request.
    pub fn administer(&mut self, auth: &Option<String>, j: &Json) -> (r: Option<Json>)
        ensures
            ({
                let a = match auth {
                    Some(p) => Some(p@),
                    None => None,
                };
                &&& final(self)@ == administered(old(self)@, a, j@).0
                &&& r.is_some() == administered(old(self)@, a, j@).1.is_some()
                &&& r matches Some(x) ==> Some(x@) == administered(old(self)@, a, j@).1
            }),
            old(self).wf() ==> final(self).wf(),
    {
        let request = match AdminRequest::from_json(j) {
            Some(q) => q,
            None => {
                return None;
            },
        };
        match request.decide(self.is_admin(auth)) {
            Err(response) => Some(response),
            Ok(c) => {
                let outcome = self.call(&c);
                Some(success(&request.id, outcome))
            },
        }
    }
}

} // verus!
