use relay_rs::event::Event;
use relay_rs::filter::Filter;
use relay_rs::recent::{
    event_key, matching_cached, read_cached, read_stop, recent_key, trim_stop, EVENT_TTL, MAX_CACHED_EVENTS,
};

const SAMPLE: &str = r#"{"id":"2be17aa3031bdcb006f0fce80c146dea9c1c0268b0af2398bb673365c6444d45","pubkey":"f86c44a2de95d9149b51c6a29afeabba264c18e2fa7c49de93424a0c56947785","created_at":1640839235,"kind":4,"tags":[["p","13adc511de7e1cfcf1c6b7f6365fb5a03442d7bcacf565ea57fa7770912c023d"]],"content":"uRuvYr585B80L6rSJiHocw==?iv=oh6LVqdsYYol3JfFnXTbPA==","sig":"a5d9290ef9659083c490b303eb7ee41356d8778ff19f2f91776c8dc4443388a64ffcf336e61af4c25c05ac3ae952d1ced889ed655b67790891222aaa15b99fdd"}"#;

#[test]
fn the_keys_and_ranks_of_recent_events() {
    assert_eq!(recent_key(), "relay:recent_events");
    assert_eq!(event_key("ab"), "event:ab");
    assert_eq!(EVENT_TTL, 600);
    assert_eq!(MAX_CACHED_EVENTS, 1000);
    assert_eq!(trim_stop(), -1001);
    assert_eq!(read_stop(100), 99);
    assert_eq!(read_stop(1), 0);
    assert_eq!(read_stop(0), -1);
    assert_eq!(read_stop(u64::MAX), i64::MAX);
    assert_eq!(read_stop(i64::MAX as u64), i64::MAX - 1);
}

#[test]
fn cached_texts_are_read_by_the_strict_decoder() {
    let e = Event::from_text(SAMPLE).unwrap();
    assert_eq!(read_cached(SAMPLE), Some(e.clone()));
    assert_eq!(read_cached("{}"), None);
    assert_eq!(read_cached("nonsense"), None);
    assert_eq!(read_cached(&SAMPLE.replace("\"kind\":4", "\"kind\":\"4\"")), None);
}

#[test]
fn cached_events_are_matched_in_their_order() {
    let e = Event::from_text(SAMPLE).unwrap();
    let texts = vec![SAMPLE.to_string(), "{}".to_string(), SAMPLE.to_string()];
    assert_eq!(matching_cached(&Filter::new(), &texts), vec![e.clone(), e.clone()]);
    let mut f = Filter::new();
    f.kinds = vec![1];
    assert_eq!(matching_cached(&f, &texts), vec![]);
    f.kinds = vec![1, 4];
    assert_eq!(matching_cached(&f, &texts), vec![e.clone(), e]);
    assert_eq!(matching_cached(&Filter::new(), &vec![]), vec![]);
}
