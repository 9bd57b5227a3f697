use relay_rs::event::Event;
use relay_rs::filter::{Filter, TagSelector};
use relay_rs::frame::{classify, decode, refuse_unparsed, resettle, route, settle, Inbound};
use relay_rs::json::Json;
use relay_rs::message::{head_is, ClientMessage, RelayMessage};

const SAMPLE: &str = r#"{"id":"2be17aa3031bdcb006f0fce80c146dea9c1c0268b0af2398bb673365c6444d45","pubkey":"f86c44a2de95d9149b51c6a29afeabba264c18e2fa7c49de93424a0c56947785","created_at":1640839235,"kind":4,"tags":[["p","13adc511de7e1cfcf1c6b7f6365fb5a03442d7bcacf565ea57fa7770912c023d"]],"content":"uRuvYr585B80L6rSJiHocw==?iv=oh6LVqdsYYol3JfFnXTbPA==","sig":"a5d9290ef9659083c490b303eb7ee41356d8778ff19f2f91776c8dc4443388a64ffcf336e61af4c25c05ac3ae952d1ced889ed655b67790891222aaa15b99fdd"}"#;

fn sample_event() -> Event {
    Event::from_text(SAMPLE).expect("the sample is an event")
}

#[test]
fn event_text_round_trip() {
    let e = sample_event();
    assert_eq!(e.kind, 4);
    assert_eq!(e.created_at, 1640839235);
    assert_eq!(e.tags.len(), 1);
    assert_eq!(Event::from_text(&e.to_text()), Some(e));
}

#[test]
fn sample_event_verifies() {
    assert_eq!(sample_event().verify(), Ok(()));
}

#[test]
fn tampered_event_fails_verification() {
    let mut e = sample_event();
    e.content = "changed".to_string();
    assert_eq!(e.verify(), Err("Invalid event ID".to_string()));
}

#[test]
fn classify_event_frame() {
    let text = format!("[\"EVENT\",{}]", SAMPLE);
    assert_eq!(classify(&text), Inbound::Client(ClientMessage::Event(sample_event())));
}

#[test]
fn classify_what_is_no_json_is_invalid() {
    assert_eq!(classify("hello"), Inbound::Invalid("expected value at line 1 column 1".to_string()));
    assert_eq!(classify("[\"CLOSE\",\"s\""), Inbound::Invalid("EOF while parsing a list at line 1 column 12".to_string()));
    assert_eq!(classify(""), Inbound::Invalid("Invalid format".to_string()));
}

#[test]
fn classify_json_of_no_shape_is_invalid() {
    let invalid = Inbound::Invalid("Invalid format".to_string());
    assert_eq!(classify("[]"), invalid);
    assert_eq!(classify("17"), invalid);
    assert_eq!(classify("null"), invalid);
    assert_eq!(classify("\"EVENT\""), invalid);
    assert_eq!(classify("{}"), invalid);
    assert_eq!(classify(r#"{"method":"list_allowed_users"}"#), invalid);
    assert_eq!(classify(r#"{"id":1}"#), invalid);
    assert_eq!(classify(r#"{"id":1,"method":7}"#), invalid);
    assert_eq!(classify("[\"COUNT\",\"s\",{}]"), invalid);
    assert_eq!(classify("[\"PING\"]"), invalid);
    assert_eq!(classify("[7]"), invalid);
}

#[test]
fn classify_object_is_rpc() {
    match classify(r#"{"id":1,"method":"list_allowed_users"}"#) {
        Inbound::Rpc(j) => {
            assert_eq!(j.get("method").and_then(|m| m.as_str()).map(|s| s.as_str()), Some("list_allowed_users"));
        }
        other => panic!("{:?}", other),
    }
}

#[test]
fn classify_close() {
    assert_eq!(classify(r#"["CLOSE","s1"]"#), Inbound::Client(ClientMessage::Close("s1".to_string())));
}

#[test]
fn classify_req_with_two_filters() {
    let got = classify(r#"["REQ","s1",{"kinds":[1]},{"kinds":[7],"limit":5}]"#);
    let mut f1 = Filter::new();
    f1.kinds = vec![1];
    let mut f2 = Filter::new();
    f2.kinds = vec![7];
    f2.limit = Some(5);
    assert_eq!(got, Inbound::Client(ClientMessage::Req { sub_id: "s1".to_string(), filters: vec![f1, f2] }));
}

#[test]
fn classify_nested_req_is_unwrapped() {
    let got = classify(r#"["REQ","s1",[{"kinds":[1]},{"kinds":[7]}]]"#);
    let mut f1 = Filter::new();
    f1.kinds = vec![1];
    let mut f2 = Filter::new();
    f2.kinds = vec![7];
    assert_eq!(got, Inbound::Client(ClientMessage::Req { sub_id: "s1".to_string(), filters: vec![f1, f2] }));
}

#[test]
fn classify_prefix_req() {
    let got = classify(r#"["REQ","s1",{"authors":["f86c44"],"kinds":[4]}]"#);
    let mut f = Filter::new();
    f.authors = vec!["f86c44".to_string()];
    f.kinds = vec![4];
    assert_eq!(got, Inbound::PrefixReq { sub_id: "s1".to_string(), filter: f });
}

#[test]
fn classify_unknown_is_invalid() {
    match classify(r#"["HELLO","x"]"#) {
        Inbound::Invalid(why) => assert_eq!(why, "Invalid format"),
        other => panic!("{:?}", other),
    }
}

#[test]
fn classify_neg_frames() {
    assert_eq!(
        classify(r#"["NEG-OPEN","s",{},32,"61"]"#),
        Inbound::NegOpen { sub_id: "s".to_string(), filter: Json::Object(vec![]), initial: "61".to_string() }
    );
    assert_eq!(classify(r#"["NEG-OPEN","s",{},"61"]"#), Inbound::Ignored);
    assert_eq!(classify(r#"["NEG-MSG","s","6100"]"#), Inbound::NegMsg { sub_id: "s".to_string(), message: "6100".to_string() });
    assert_eq!(classify(r#"["NEG-CLOSE","s"]"#), Inbound::NegClose { sub_id: "s".to_string() });
    assert_eq!(classify(r#"["NEG-CLOSE"]"#), Inbound::Ignored);
}

#[test]
fn relay_message_texts() {
    assert_eq!(
        RelayMessage::Ack { event_id: "ab".to_string(), accepted: false, message: "error: event expired".to_string() }.to_text(),
        r#"["OK","ab",false,"error: event expired"]"#
    );
    assert_eq!(RelayMessage::Eose("s".to_string()).to_text(), r#"["EOSE","s"]"#);
    assert_eq!(
        RelayMessage::Closed { sub_id: "s".to_string(), reason: "Subscription closed".to_string() }.to_text(),
        r#"["CLOSED","s","Subscription closed"]"#
    );
    assert_eq!(RelayMessage::Notice("a \"b\"".to_string()).to_text(), r#"["NOTICE","a \"b\""]"#);
    assert_eq!(RelayMessage::Auth("c".to_string()).to_text(), r#"["AUTH","c"]"#);
    assert_eq!(
        RelayMessage::NegMsg { sub_id: "s".to_string(), message: "61".to_string() }.to_text(),
        r#"["NEG-MSG","s","61"]"#
    );
    let sent = RelayMessage::Event { sub_id: "s".to_string(), event: sample_event() }.to_json();
    assert_eq!(sent, Json::Array(vec![Json::string("EVENT"), Json::string("s"), sample_event().to_json()]));
}

#[test]
fn json_is_parsed_and_written() {
    let j = Json::parse(r#"{"b":[1,-2,1.5,"x",null,true],"a":{}}"#).unwrap();
    assert_eq!(
        j,
        Json::Object(vec![
            ("a".to_string(), Json::Object(vec![])),
            (
                "b".to_string(),
                Json::Array(vec![
                    Json::unsigned(1),
                    Json::Number(relay_rs::json::JsonNumber::Negative(-2)),
                    Json::Number(relay_rs::json::JsonNumber::Real("1.5".to_string())),
                    Json::string("x"),
                    Json::Null,
                    Json::Bool(true),
                ])
            ),
        ])
    );
    assert_eq!(j.to_text(), r#"{"a":{},"b":[1,-2,1.5,"x",null,true]}"#);
    assert_eq!(j.clone(), j);
    assert_eq!(Json::parse("{"), None);
    assert_eq!(Json::parse(""), None);
    assert_eq!(Json::parse("18446744073709551615"), Some(Json::unsigned(u64::MAX)));
    assert_eq!(Json::parse("\"a\\u00e9\"").map(|j| j.to_text()), Some("\"a\u{e9}\"".to_string()));
}

#[test]
fn json_accessors() {
    let j = Json::parse(r#"{"s":"x","n":7,"a":[1],"m":-1}"#).unwrap();
    assert_eq!(j.get("s").and_then(|v| v.as_str()).map(|s| s.as_str()), Some("x"));
    assert_eq!(j.get("n").and_then(|v| v.as_u64()), Some(7));
    assert_eq!(j.get("m").and_then(|v| v.as_u64()), None);
    assert_eq!(j.get("a").and_then(|v| v.as_array()).map(|a| a.len()), Some(1));
    assert_eq!(j.get("zz"), None);
    assert_eq!(j.get("s").and_then(|v| v.as_u64()), None);
    assert_eq!(j.get("s").and_then(|v| v.as_array()), None);
    assert!(j.as_object().is_some());
    assert!(j.get("a").unwrap().as_object().is_none());
    assert_eq!(Json::Null.get("s"), None);
    let twice = Json::Object(vec![("k".to_string(), Json::unsigned(1)), ("k".to_string(), Json::unsigned(2))]);
    assert_eq!(twice.get("k"), Some(&Json::unsigned(1)));
}

fn items(text: &str) -> Vec<Json> {
    match Json::parse(text) {
        Some(Json::Array(a)) => a,
        other => panic!("{:?}", other),
    }
}

#[test]
fn route_tells_frames_apart_by_their_head() {
    let route_text = |text: &str| route(&Json::parse(text).unwrap());
    let invalid = Some(Inbound::Invalid("Invalid format".to_string()));
    assert_eq!(route_text("{}"), invalid);
    assert_eq!(route_text(r#"{"id":1}"#), invalid);
    assert_eq!(
        route_text(r#"{"id":null,"method":"m"}"#),
        Some(Inbound::Rpc(Json::Object(vec![
            ("id".to_string(), Json::Null),
            ("method".to_string(), Json::string("m")),
        ])))
    );
    assert_eq!(route_text("null"), invalid);
    assert_eq!(route_text("\"REQ\""), invalid);
    assert_eq!(route_text("[]"), invalid);
    assert_eq!(route_text("[\"REQ\",\"s\",{}]"), None);
    assert_eq!(route_text("[1,2]"), None);
    assert_eq!(route_text("[\"NEG-OPEN\",\"s\",{},32]"), Some(Inbound::Ignored));
    assert_eq!(
        route_text("[\"NEG-OPEN\",7,[1],32,8,\"more\"]"),
        Some(Inbound::NegOpen { sub_id: String::new(), filter: Json::Array(vec![Json::unsigned(1)]), initial: String::new() })
    );
    assert_eq!(route_text("[\"NEG-MSG\",\"s\"]"), Some(Inbound::Ignored));
    assert_eq!(
        route_text("[\"NEG-MSG\",\"s\",5]"),
        Some(Inbound::NegMsg { sub_id: "s".to_string(), message: String::new() })
    );
    assert_eq!(route_text("[\"NEG-CLOSE\",null]"), Some(Inbound::NegClose { sub_id: String::new() }));
}

#[test]
fn head_is_reads_the_first_item() {
    assert!(head_is(&items("[\"REQ\",1]"), "REQ"));
    assert!(!head_is(&items("[\"REQ\",1]"), "RE"));
    assert!(!head_is(&items("[]"), "REQ"));
    assert!(!head_is(&items("[]"), ""));
    assert!(head_is(&items("[5]"), ""));
    assert!(!head_is(&items("[5]"), "5"));
}

#[test]
fn settle_lets_an_accepted_message_through() {
    let a = items("[\"CLOSE\",\"s\"]");
    assert_eq!(
        settle(&a, Ok(ClientMessage::Close("s".to_string()))),
        Ok(Inbound::Client(ClientMessage::Close("s".to_string())))
    );
    assert_eq!(
        settle(&vec![], Ok(ClientMessage::Close("t".to_string()))),
        Ok(Inbound::Client(ClientMessage::Close("t".to_string())))
    );
}

#[test]
fn settle_asks_for_a_second_try_on_a_nested_req() {
    let a = items("[\"REQ\",\"s\",[{\"kinds\":[1]},{\"kinds\":[7]}]]");
    assert_eq!(
        settle(&a, Err("why".to_string())),
        Err(Json::parse("[\"REQ\",\"s\",{\"kinds\":[1]},{\"kinds\":[7]}]").unwrap())
    );
    let empty = items("[\"REQ\",\"s\",[]]");
    assert_eq!(settle(&empty, Err("why".to_string())), Err(Json::parse("[\"REQ\",\"s\"]").unwrap()));
    let four = items("[\"REQ\",\"s\",[{}],{}]");
    assert_eq!(settle(&four, Err("why".to_string())), Ok(Inbound::Invalid("why".to_string())));
    let other = items("[\"EVENT\",\"s\",[{}]]");
    assert_eq!(settle(&other, Err("why".to_string())), Ok(Inbound::Invalid("why".to_string())));
}

#[test]
fn a_refused_req_with_an_object_goes_to_the_tolerant_reader() {
    let a = items("[\"REQ\",\"s\",{\"authors\":[\"ab\"]},{\"kinds\":[1]}]");
    let mut f = Filter::new();
    f.authors = vec!["ab".to_string()];
    assert_eq!(
        settle(&a, Err("why".to_string())),
        Ok(Inbound::PrefixReq { sub_id: "s".to_string(), filter: f.clone() })
    );
    assert_eq!(
        resettle(&a, "first".to_string(), Err("second".to_string())),
        Inbound::PrefixReq { sub_id: "s".to_string(), filter: f }
    );
    let numbered = items("[\"REQ\",5,{\"authors\":[\"ab\"]}]");
    assert_eq!(settle(&numbered, Err("why".to_string())), Ok(Inbound::Invalid("why".to_string())));
    let short = items("[\"REQ\",\"s\"]");
    assert_eq!(settle(&short, Err("why".to_string())), Ok(Inbound::Invalid("why".to_string())));
}

#[test]
fn resettle_keeps_the_first_reason() {
    let a = items("[\"REQ\",\"s\",[7]]");
    assert_eq!(
        resettle(&a, "first".to_string(), Err("second".to_string())),
        Inbound::Invalid("first".to_string())
    );
    assert_eq!(
        resettle(&a, "first".to_string(), Ok(ClientMessage::Close("s".to_string()))),
        Inbound::Client(ClientMessage::Close("s".to_string()))
    );
    assert_eq!(
        classify("[\"REQ\",\"s\",[7]]"),
        Inbound::Invalid("invalid type: sequence, expected struct Filter".to_string())
    );
}

#[test]
fn decode_asks_the_strict_decoder() {
    assert_eq!(decode("[\"CLOSE\",\"s\"]"), Ok(ClientMessage::Close("s".to_string())));
    assert_eq!(decode("[\"COUNT\",\"s\",{}]"), Err("Invalid format".to_string()));
    assert_eq!(decode("nonsense"), Err("expected ident at line 1 column 2".to_string()));
    assert_eq!(decode("[\"AUTH\",{}]").is_err(), true);
    assert_eq!(decode("[\"CLOSE\"]"), Err("Invalid format".to_string()));
    assert_eq!(decode(""), Err("Invalid format".to_string()));
    assert_eq!(decode("{}"), Err("Invalid format".to_string()));
    let upper = SAMPLE.replace("2be17aa3031bdcb006f0fce80c146dea9c1c0268b0af2398bb673365c6444d45", "2BE17AA3031BDCB006F0FCE80C146DEA9C1C0268B0AF2398BB673365C6444D45");
    assert_eq!(decode(&format!("[\"EVENT\",{}]", upper)), Ok(ClientMessage::Event(sample_event())));
}

#[test]
fn a_client_message_is_read_from_json() {
    let read = |text: &str| ClientMessage::from_json(&Json::parse(text).unwrap());
    assert_eq!(read("[]"), None);
    assert_eq!(read("{}"), None);
    assert_eq!(read("[\"EVENT\"]"), None);
    assert_eq!(read("[\"EVENT\",{}]"), None);
    assert_eq!(read(&format!("[\"EVENT\",{}]", SAMPLE)), Some(ClientMessage::Event(sample_event())));
    assert_eq!(read(&format!("[\"AUTH\",{},1]", SAMPLE)), Some(ClientMessage::Auth(sample_event())));
    assert_eq!(read("[\"REQ\",\"s\"]"), None);
    assert_eq!(read("[\"REQ\",1,{}]"), None);
    assert_eq!(read("[\"REQ\",\"s\",{}]"), Some(ClientMessage::Req { sub_id: "s".to_string(), filters: vec![Filter::new()] }));
    assert_eq!(read("[\"CLOSE\"]"), None);
    assert_eq!(read("[\"CLOSE\",\"s\",\"t\"]"), Some(ClientMessage::Close("s".to_string())));
    assert_eq!(read("[\"PING\"]"), None);
    assert_eq!(read("[\"COUNT\",\"s\",{}]"), None);
    assert_eq!(read("[7]"), None);
    assert_eq!(ClientMessage::from_text("[\"CLOSE\",\"s\"]"), Some(ClientMessage::Close("s".to_string())));
    assert_eq!(ClientMessage::from_text("[\"CLOSE\""), None);
}

#[test]
fn a_strict_req_keeps_every_dimension() {
    let id = "ab".repeat(32);
    let text = format!(
        "[\"REQ\",\"s\",{{\"ids\":[\"{id}\"],\"authors\":[\"{pk}\"],\"kinds\":[1],\"since\":5,\"until\":9,\"limit\":2,\"#e\":[\"x\"],\"#P\":[\"y\"]}}]",
        id = id,
        pk = "f86c44a2de95d9149b51c6a29afeabba264c18e2fa7c49de93424a0c56947785"
    );
    let want = Filter {
        ids: vec![id],
        authors: vec!["f86c44a2de95d9149b51c6a29afeabba264c18e2fa7c49de93424a0c56947785".to_string()],
        kinds: vec![1],
        since: Some(5),
        until: Some(9),
        limit: Some(2),
        tags: vec![
            TagSelector { name: "P".to_string(), values: vec!["y".to_string()] },
            TagSelector { name: "e".to_string(), values: vec!["x".to_string()] },
        ],
    };
    assert_eq!(classify(&text), Inbound::Client(ClientMessage::Req { sub_id: "s".to_string(), filters: vec![want] }));
}

#[test]
fn a_text_that_is_no_json_is_settled_on_the_decoders_answer() {
    assert_eq!(refuse_unparsed(Err("why".to_string())), Inbound::Invalid("why".to_string()));
    assert_eq!(
        refuse_unparsed(Ok(ClientMessage::Close("s".to_string()))),
        Inbound::Client(ClientMessage::Close("s".to_string()))
    );
}
