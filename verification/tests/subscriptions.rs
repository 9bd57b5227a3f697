use relay_rs::event::Event;
use relay_rs::filter::Filter;
use relay_rs::message::RelayMessage;
use relay_rs::subscription::{answer, backfill, query_failed, read_rows, recheck, Registry};

const SAMPLE: &str = r#"{"id":"2be17aa3031bdcb006f0fce80c146dea9c1c0268b0af2398bb673365c6444d45","pubkey":"f86c44a2de95d9149b51c6a29afeabba264c18e2fa7c49de93424a0c56947785","created_at":1640839235,"kind":4,"tags":[["p","13adc511de7e1cfcf1c6b7f6365fb5a03442d7bcacf565ea57fa7770912c023d"]],"content":"uRuvYr585B80L6rSJiHocw==?iv=oh6LVqdsYYol3JfFnXTbPA==","sig":"a5d9290ef9659083c490b303eb7ee41356d8778ff19f2f91776c8dc4443388a64ffcf336e61af4c25c05ac3ae952d1ced889ed655b67790891222aaa15b99fdd"}"#;

fn event(id: &str, kind: u64, at: u64) -> Event {
    Event {
        id: id.to_string(),
        pubkey: "p".to_string(),
        created_at: at,
        kind,
        tags: vec![],
        content: String::new(),
        sig: String::new(),
    }
}

fn kinds(k: &[u64]) -> Filter {
    let mut f = Filter::new();
    f.kinds = k.to_vec();
    f
}

fn frame(sub: &str, e: &Event) -> RelayMessage {
    RelayMessage::Event { sub_id: sub.to_string(), event: e.clone() }
}

#[test]
fn recheck_keeps_what_some_filter_matches() {
    let rows = vec![event("a", 1, 3), event("b", 7, 2), event("c", 9, 1)];
    assert_eq!(recheck(&vec![kinds(&[1]), kinds(&[9])], &rows), vec![rows[0].clone(), rows[2].clone()]);
    assert_eq!(recheck(&vec![], &rows), vec![]);
    assert_eq!(recheck(&vec![Filter::new()], &rows), rows);
}

#[test]
fn an_answer_ends_with_the_end_marker() {
    let rows = vec![event("a", 1, 3), event("b", 7, 2), event("c", 1, 1)];
    assert_eq!(
        answer("s1", &vec![kinds(&[1])], &rows),
        vec![frame("s1", &rows[0]), frame("s1", &rows[2]), RelayMessage::Eose("s1".to_string())]
    );
    assert_eq!(answer("s1", &vec![kinds(&[1])], &vec![]), vec![RelayMessage::Eose("s1".to_string())]);
}

#[test]
fn rows_that_the_decoder_refuses_are_left_out() {
    let good = Event::from_text(SAMPLE).unwrap();
    let rows = vec![event("not hex", 4, 3), good.clone()];
    assert_eq!(read_rows(&rows), vec![good.clone()]);
    assert_eq!(
        backfill("s", &vec![kinds(&[4])], &rows),
        vec![frame("s", &good), RelayMessage::Eose("s".to_string())]
    );
    assert_eq!(backfill("s", &vec![kinds(&[1])], &rows), vec![RelayMessage::Eose("s".to_string())]);
}

#[test]
fn a_failed_read_is_a_notice() {
    assert_eq!(query_failed("pool timed out"), RelayMessage::Notice("Failed to query events: pool timed out".to_string()));
}

#[test]
fn a_new_subscription_replaces_the_one_of_its_name() {
    let mut r = Registry::new();
    assert_eq!(r.len(), 0);
    r.open("a", vec![kinds(&[1])]);
    r.open("b", vec![kinds(&[7])]);
    assert_eq!(r.len(), 2);
    let e1 = event("x", 1, 1);
    let e7 = event("y", 7, 1);
    assert_eq!(r.receivers_of(&e1), vec!["a".to_string()]);
    r.open("a", vec![kinds(&[7])]);
    assert_eq!(r.len(), 2);
    assert_eq!(r.receivers_of(&e1), Vec::<String>::new());
    assert_eq!(r.receivers_of(&e7), vec!["b".to_string(), "a".to_string()]);
}

#[test]
fn close_removes_the_subscription() {
    let mut r = Registry::new();
    r.open("a", vec![Filter::new()]);
    r.open("b", vec![Filter::new()]);
    assert!(r.close("a"));
    assert!(!r.close("a"));
    assert_eq!(r.len(), 1);
    assert_eq!(r.receivers_of(&event("x", 1, 1)), vec!["b".to_string()]);
}

#[test]
fn an_event_goes_once_to_each_subscription_that_it_is_for() {
    let mut r = Registry::new();
    r.open("both", vec![kinds(&[1]), kinds(&[1, 7]), Filter::new()]);
    r.open("none", vec![kinds(&[9])]);
    r.open("empty", vec![]);
    r.open("one", vec![kinds(&[1])]);
    let e = event("x", 1, 1);
    assert_eq!(r.deliver(&e), vec![frame("both", &e), frame("one", &e)]);
    assert_eq!(r.deliver(&event("y", 3, 1)), vec![frame("both", &event("y", 3, 1))]);
}
