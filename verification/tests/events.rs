use nostr::JsonUtil;
use relay_rs::event::{copy_strings, copy_tags, json_to_strings, json_to_tags, Event, Expiry};
use relay_rs::json::Json;

fn keys(n: u64) -> nostr::Keys {
    nostr::Keys::parse(&format!("{:064x}", n + 1)).unwrap()
}

fn signed(k: &nostr::Keys, kind: u16, content: &str, tags: Vec<Vec<&str>>, at: u64) -> Event {
    let tags: Vec<nostr::Tag> = tags.into_iter().map(|t| nostr::Tag::parse(t).unwrap()).collect();
    let e = nostr::EventBuilder::new(nostr::Kind::from(kind), content)
        .tags(tags)
        .custom_created_at(nostr::Timestamp::from(at))
        .sign_with_keys(k)
        .unwrap();
    Event::from_text(&e.as_json()).unwrap()
}

fn bare(kind: u64, tags: Vec<Vec<&str>>) -> Event {
    Event {
        id: "00".repeat(32),
        pubkey: "11".repeat(32),
        created_at: 100,
        kind,
        tags: tags.into_iter().map(|t| t.into_iter().map(|s| s.to_string()).collect()).collect(),
        content: String::new(),
        sig: "22".repeat(64),
    }
}

#[test]
fn a_signed_event_verifies() {
    let e = signed(&keys(1), 1, "hi", vec![], 1000);
    assert_eq!(e.kind, 1);
    assert_eq!(e.content, "hi");
    assert_eq!(e.created_at, 1000);
    assert_eq!(e.pubkey, keys(1).public_key().to_hex());
    assert_eq!(e.verify(), Ok(()));
}

#[test]
fn a_forged_signature_is_found() {
    let a = signed(&keys(1), 1, "hi", vec![], 1000);
    let b = signed(&keys(1), 1, "ho", vec![], 1000);
    let mut forged = a.clone();
    forged.sig = b.sig.clone();
    assert_eq!(forged.verify(), Err("Invalid signature".to_string()));
}

#[test]
fn a_changed_content_breaks_the_id() {
    let mut e = signed(&keys(1), 1, "hi", vec![], 1000);
    e.content = "bye".to_string();
    assert_eq!(e.verify(), Err("Invalid event ID".to_string()));
}

#[test]
fn a_malformed_event_fails_verification_with_a_reason() {
    let e = bare(1, vec![]);
    assert!(e.verify().is_err());
    let mut short = signed(&keys(1), 1, "hi", vec![], 1000);
    short.id = "abcd".to_string();
    assert!(short.verify().is_err());
}

#[test]
fn restore_gives_the_event_back() {
    let e = signed(&keys(2), 30000, "v1", vec![vec!["d", "a"], vec!["t", "x", "y"]], 5);
    assert_eq!(e.restore(), Some(e.clone()));
    assert_eq!(bare(1, vec![]).restore().map(|x| x.id), Some("00".repeat(32)));
    let mut bad = e.clone();
    bad.sig = "zz".to_string();
    assert_eq!(bad.restore(), None);
}

#[test]
fn clone_copies_every_field() {
    let e = signed(&keys(2), 1, "c", vec![vec!["e", "ab"], vec!["p"]], 5);
    assert_eq!(e.clone(), e);
    assert_eq!(copy_tags(&e.tags), e.tags);
    assert_eq!(copy_strings(&e.tags[0]), e.tags[0]);
}

#[test]
fn event_json_has_the_seven_fields() {
    let e = bare(7, vec![vec!["e", "x"]]);
    let j = e.to_json();
    assert_eq!(j.get("id"), Some(&Json::string(&"00".repeat(32))));
    assert_eq!(j.get("pubkey"), Some(&Json::string(&"11".repeat(32))));
    assert_eq!(j.get("created_at"), Some(&Json::unsigned(100)));
    assert_eq!(j.get("kind"), Some(&Json::unsigned(7)));
    assert_eq!(
        j.get("tags"),
        Some(&Json::Array(vec![Json::Array(vec![Json::string("e"), Json::string("x")])]))
    );
    assert_eq!(j.get("content"), Some(&Json::string("")));
    assert_eq!(j.get("sig"), Some(&Json::string(&"22".repeat(64))));
    assert_eq!(j.as_object().map(|f| f.len()), Some(7));
    assert_eq!(Event::from_json(&j), Some(e));
}

#[test]
fn event_from_json_needs_every_field() {
    let e = bare(7, vec![]);
    for missing in ["id", "pubkey", "created_at", "kind", "tags", "content", "sig"] {
        let fields: Vec<(String, Json)> = match e.to_json() {
            Json::Object(f) => f.into_iter().filter(|(k, _)| k != missing).collect(),
            _ => unreachable!(),
        };
        assert_eq!(Event::from_json(&Json::Object(fields)), None, "{}", missing);
    }
    assert_eq!(Event::from_json(&Json::Null), None);
    assert_eq!(Event::from_json(&Json::Array(vec![])), None);
}

#[test]
fn event_from_json_checks_the_types() {
    let e = bare(7, vec![]);
    let with = |key: &str, value: Json| -> Json {
        match e.to_json() {
            Json::Object(f) => Json::Object(
                f.into_iter().map(|(k, v)| if k == key { (k, value.clone()) } else { (k, v) }).collect(),
            ),
            _ => unreachable!(),
        }
    };
    assert_eq!(Event::from_json(&with("kind", Json::string("7"))), None);
    assert_eq!(Event::from_json(&with("id", Json::unsigned(7))), None);
    assert_eq!(Event::from_json(&with("tags", Json::Array(vec![Json::string("e")]))), None);
    assert_eq!(Event::from_json(&with("tags", Json::Array(vec![Json::Array(vec![Json::unsigned(1)])]))), None);
    assert!(Event::from_json(&with("kind", Json::unsigned(8))).is_some());
}

#[test]
fn json_strings_and_tags() {
    let a = Json::Array(vec![Json::string("a"), Json::string("b")]);
    assert_eq!(json_to_strings(&a), Some(vec!["a".to_string(), "b".to_string()]));
    assert_eq!(json_to_strings(&Json::Array(vec![])), Some(vec![]));
    assert_eq!(json_to_strings(&Json::Array(vec![Json::Null])), None);
    assert_eq!(json_to_strings(&Json::string("a")), None);
    assert_eq!(json_to_tags(&Json::Array(vec![a.clone()])), Some(vec![vec!["a".to_string(), "b".to_string()]]));
    assert_eq!(json_to_tags(&a), None);
}

#[test]
fn d_tag_value_is_that_of_the_first_d_tag() {
    assert_eq!(bare(30000, vec![vec!["d", "a"], vec!["d", "b"]]).d_tag_value(), "a");
    assert_eq!(bare(30000, vec![vec!["e", "x"], vec!["d", "b", "c"]]).d_tag_value(), "b");
    assert_eq!(bare(30000, vec![vec!["d"], vec!["d", "b"]]).d_tag_value(), "");
    assert_eq!(bare(30000, vec![]).d_tag_value(), "");
    assert_eq!(bare(30000, vec![vec!["dd", "x"]]).d_tag_value(), "");
    assert_eq!(bare(30000, vec![vec![], vec!["d", "z"]]).d_tag_value(), "z");
}

#[test]
fn addressable_kinds_run_from_30000_to_39999() {
    assert!(!bare(29999, vec![]).is_addressable());
    assert!(bare(30000, vec![]).is_addressable());
    assert!(bare(39999, vec![]).is_addressable());
    assert!(!bare(40000, vec![]).is_addressable());
    assert!(!bare(0, vec![]).is_addressable());
    assert!(!bare(10000, vec![]).is_addressable());
}

#[test]
fn values_of_takes_the_second_string_of_each_tag_of_the_name() {
    let e = bare(5, vec![vec!["e", "x"], vec!["p", "q"], vec!["e"], vec!["e", "y", "z"], vec![]]);
    assert_eq!(e.values_of("e"), vec!["x".to_string(), "y".to_string()]);
    assert_eq!(e.values_of("p"), vec!["q".to_string()]);
    assert_eq!(e.values_of("d"), Vec::<String>::new());
}

#[test]
fn has_challenge_wants_the_exact_value() {
    let e = bare(22242, vec![vec!["relay", "r"], vec!["challenge", "abc"]]);
    assert!(e.has_challenge("abc"));
    assert!(!e.has_challenge("ab"));
    assert!(!e.has_challenge("x"));
    assert!(!bare(22242, vec![vec!["challenge"]]).has_challenge(""));
    assert!(bare(22242, vec![vec!["challenge", "a"], vec!["challenge", "b"]]).has_challenge("b"));
}

#[test]
fn expiry_is_strict_against_the_clock() {
    assert_eq!(bare(1, vec![]).expiry(1000), Expiry::Live(None));
    assert_eq!(bare(1, vec![vec!["expiration", "999"]]).expiry(1000), Expiry::Expired);
    assert_eq!(bare(1, vec![vec!["expiration", "1000"]]).expiry(1000), Expiry::Live(Some(1000)));
    assert_eq!(bare(1, vec![vec!["expiration", "1001"]]).expiry(1000), Expiry::Live(Some(1001)));
    assert_eq!(bare(1, vec![vec!["expiration", "-5"]]).expiry(-10), Expiry::Live(Some(-5)));
}

#[test]
fn expiry_looks_at_every_expiration_tag() {
    assert_eq!(
        bare(1, vec![vec!["expiration", "2000"], vec!["expiration", "3000"]]).expiry(1000),
        Expiry::Live(Some(3000))
    );
    assert_eq!(
        bare(1, vec![vec!["expiration", "3000"], vec!["expiration", "2000"]]).expiry(1000),
        Expiry::Live(Some(2000))
    );
    assert_eq!(
        bare(1, vec![vec!["expiration", "2000"], vec!["expiration", "5"]]).expiry(1000),
        Expiry::Expired
    );
    assert_eq!(
        bare(1, vec![vec!["expiration", "soon"], vec!["expiration"], vec!["expiration", "2000"]]).expiry(1000),
        Expiry::Live(Some(2000))
    );
    assert_eq!(bare(1, vec![vec!["expiration", "never"]]).expiry(1000), Expiry::Live(None));
    assert_eq!(
        bare(1, vec![vec!["expiration", "99999999999999999999"]]).expiry(1000),
        Expiry::Live(None)
    );
}

#[test]
fn restore_reads_hex_of_either_case() {
    let e = signed(&keys(2), 1, "x", vec![], 5);
    let mut upper = e.clone();
    upper.id = e.id.to_uppercase();
    upper.pubkey = e.pubkey.to_uppercase();
    upper.sig = e.sig.to_uppercase();
    assert_ne!(upper, e);
    assert_eq!(upper.restore(), Some(e));
}
