use relay_rs::ingest::Backend;
use relay_rs::json::{Json, JsonNumber};
use relay_rs::rpc::{failure, listing, success, AdminCall, AdminRequest, CODE_NO_METHOD, CODE_UNAUTHORIZED};
use relay_rs::whitelist::{User, WhitelistStatus};

fn object(fields: Vec<(&str, Json)>) -> Json {
    Json::Object(fields.into_iter().map(|(k, v)| (k.to_string(), v)).collect())
}

fn request(id: Json, method: &str, params: Option<Vec<Json>>) -> Json {
    let mut f = vec![("id", id), ("method", Json::string(method))];
    if let Some(p) = params {
        f.push(("params", Json::Array(p)));
    }
    object(f)
}

fn error(id: Json, code: i64, message: &str) -> Json {
    object(vec![
        ("jsonrpc", Json::string("2.0")),
        ("id", id),
        (
            "error",
            object(vec![("code", Json::Number(JsonNumber::Negative(code))), ("message", Json::string(message))]),
        ),
    ])
}

fn ok(id: Json, result: Json) -> Json {
    object(vec![("jsonrpc", Json::string("2.0")), ("id", id), ("result", result)])
}

fn backend() -> Backend {
    let mut b = Backend::new();
    b.users.add(User { pubkey: "admin".to_string(), is_admin: true, status: WhitelistStatus::Active });
    b.users.add(User { pubkey: "user".to_string(), is_admin: false, status: WhitelistStatus::Active });
    b
}

#[test]
fn the_error_codes() {
    assert_eq!(CODE_UNAUTHORIZED, -32000);
    assert_eq!(CODE_NO_METHOD, -32601);
}

#[test]
fn a_request_needs_an_id_and_a_method() {
    assert_eq!(AdminRequest::from_json(&object(vec![("method", Json::string("m"))])), None);
    assert_eq!(AdminRequest::from_json(&object(vec![("id", Json::unsigned(1))])), None);
    assert_eq!(AdminRequest::from_json(&object(vec![("id", Json::unsigned(1)), ("method", Json::unsigned(2))])), None);
    assert_eq!(AdminRequest::from_json(&Json::Array(vec![])), None);
    assert_eq!(
        AdminRequest::from_json(&request(Json::Null, "m", None)),
        Some(AdminRequest { id: Json::Null, method: "m".to_string(), param: None })
    );
    assert_eq!(
        AdminRequest::from_json(&request(Json::string("7"), "m", Some(vec![Json::string("p"), Json::string("q")]))),
        Some(AdminRequest { id: Json::string("7"), method: "m".to_string(), param: Some("p".to_string()) })
    );
    assert_eq!(
        AdminRequest::from_json(&request(Json::unsigned(7), "m", Some(vec![Json::unsigned(1)]))).map(|r| r.param),
        Some(None)
    );
    assert_eq!(AdminRequest::from_json(&request(Json::unsigned(7), "m", Some(vec![]))).map(|r| r.param), Some(None));
}

#[test]
fn the_method_names_the_call() {
    let call = |method: &str, param: Option<&str>| {
        AdminRequest { id: Json::Null, method: method.to_string(), param: param.map(|p| p.to_string()) }.call()
    };
    assert_eq!(call("list_allowed_users", None), Ok(AdminCall::ListAllowed));
    assert_eq!(call("list_allowed_users", Some("x")), Ok(AdminCall::ListAllowed));
    assert_eq!(call("allow_user", Some("p")), Ok(AdminCall::Allow("p".to_string())));
    assert_eq!(call("ban_user", Some("p")), Ok(AdminCall::Ban("p".to_string())));
    assert_eq!(call("allow_user", None), Err("Missing pubkey param".to_string()));
    assert_eq!(call("ban_user", None), Err("Missing pubkey param".to_string()));
    assert_eq!(call("drop_table", Some("p")), Err("Method not found".to_string()));
    assert_eq!(call("", None), Err("Method not found".to_string()));
}

#[test]
fn who_is_no_administrator_is_refused_whatever_they_ask() {
    let r = AdminRequest { id: Json::unsigned(3), method: "list_allowed_users".to_string(), param: None };
    assert_eq!(r.decide(false), Err(error(Json::unsigned(3), -32000, "Unauthorized: Admin access required")));
    let r = AdminRequest { id: Json::unsigned(3), method: "nonsense".to_string(), param: None };
    assert_eq!(r.decide(false), Err(error(Json::unsigned(3), -32000, "Unauthorized: Admin access required")));
    assert_eq!(r.decide(true), Err(error(Json::unsigned(3), -32601, "Method not found")));
    let r = AdminRequest { id: Json::unsigned(3), method: "allow_user".to_string(), param: None };
    assert_eq!(r.decide(true), Err(error(Json::unsigned(3), -32601, "Missing pubkey param")));
    let r = AdminRequest { id: Json::unsigned(3), method: "allow_user".to_string(), param: Some("p".to_string()) };
    assert_eq!(r.decide(true), Ok(AdminCall::Allow("p".to_string())));
}

#[test]
fn the_responses() {
    assert_eq!(failure(&Json::string("a"), -32601, "Method not found"), error(Json::string("a"), -32601, "Method not found"));
    assert_eq!(success(&Json::unsigned(1), Json::Bool(true)), ok(Json::unsigned(1), Json::Bool(true)));
    assert_eq!(listing(&vec!["a".to_string()]), Json::Array(vec![Json::string("a")]));
    assert_eq!(
        relay_rs::message::RelayMessage::Rpc(failure(&Json::unsigned(1), -32000, "m")).to_text(),
        r#"{"error":{"code":-32000,"message":"m"},"id":1,"jsonrpc":"2.0"}"#
    );
}

#[test]
fn only_an_authenticated_administrator_is_served() {
    let mut b = backend();
    let list = request(Json::unsigned(1), "list_allowed_users", None);
    let refused = Some(error(Json::unsigned(1), -32000, "Unauthorized: Admin access required"));
    assert_eq!(b.administer(&None, &list), refused);
    assert_eq!(b.administer(&Some("user".to_string()), &list), refused);
    assert_eq!(b.administer(&Some("nobody".to_string()), &list), refused);
    assert_eq!(
        b.administer(&Some("admin".to_string()), &list),
        Some(ok(Json::unsigned(1), Json::Array(vec![Json::string("admin"), Json::string("user")])))
    );
    assert!(!b.is_admin(&None));
    assert!(!b.is_admin(&Some("user".to_string())));
    assert!(b.is_admin(&Some("admin".to_string())));
}

#[test]
fn what_is_no_request_gets_no_answer() {
    let mut b = backend();
    assert_eq!(b.administer(&Some("admin".to_string()), &object(vec![("method", Json::string("x"))])), None);
    assert_eq!(b.administer(&None, &object(vec![])), None);
}

#[test]
fn allow_and_ban_change_the_table_and_drop_the_cached_answer() {
    let mut b = backend();
    let admin = Some("admin".to_string());
    b.cache.set_ex("whitelist:new", "0:0", 300, 0);
    assert_eq!(
        b.administer(&admin, &request(Json::unsigned(2), "allow_user", Some(vec![Json::string("new")]))),
        Some(ok(Json::unsigned(2), Json::Bool(true)))
    );
    assert_eq!(b.users.find("new").map(|u| (u.is_admin, u.status)), Some((false, WhitelistStatus::Active)));
    assert_eq!(b.cache.get("whitelist:new", 1), None);
    b.cache.set_ex("whitelist:user", "0:1", 300, 0);
    assert_eq!(
        b.administer(&admin, &request(Json::unsigned(3), "ban_user", Some(vec![Json::string("user")]))),
        Some(ok(Json::unsigned(3), Json::Bool(true)))
    );
    assert_eq!(b.users.find("user").map(|u| u.status), Some(WhitelistStatus::Revoked));
    assert_eq!(b.cache.get("whitelist:user", 1), None);
    assert_eq!(
        b.administer(&admin, &request(Json::unsigned(4), "ban_user", Some(vec![Json::string("ghost")]))),
        Some(ok(Json::unsigned(4), Json::Bool(true)))
    );
    assert_eq!(b.users.find("ghost"), None);
    assert_eq!(
        b.administer(&admin, &request(Json::unsigned(5), "list_allowed_users", None)),
        Some(ok(Json::unsigned(5), Json::Array(vec![Json::string("admin"), Json::string("new")])))
    );
    assert_eq!(b.call(&AdminCall::ListAllowed), Json::Array(vec![Json::string("admin"), Json::string("new")]));
}
